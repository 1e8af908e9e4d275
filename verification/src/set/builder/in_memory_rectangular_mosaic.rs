use crate::mosaic::RectangularMosaic;
use crate::set::builder::{SetBuilder, ShardBuilder};
use crate::set::rectangle::RectangularMosaicSet;
use vstd::prelude::*;

verus! {

/// Keeps every item that its shards take in, in one set of mosaics.
pub struct InMemoryRectangularMosaicSetBuilder<const W: usize, const H: usize, M: RectangularMosaic<W, H>> {
    merged: RectangularMosaicSet<W, H, M>,
}

impl<const W: usize, const H: usize, M: RectangularMosaic<W, H>> InMemoryRectangularMosaicSetBuilder<W, H, M> {
    /// The builder that has taken in nothing. It takes in mosaics that have
    /// columns if they have rows, and rows if they have columns; of others it
    /// holds nothing.
    pub fn new() -> (builder: Self)
        ensures
            (W > 0) == (H > 0) ==> builder.holds(Seq::empty()),
    {
        InMemoryRectangularMosaicSetBuilder { merged: RectangularMosaicSet::new() }
    }
}

impl<const W: usize, const H: usize, M: RectangularMosaic<W, H>> SetBuilder for InMemoryRectangularMosaicSetBuilder<W, H, M> {
    type Item = M;

    type Shard = InMemoryRectangularMosaicShardBuilder<W, H, M>;

    type Result = RectangularMosaicSet<W, H, M>;

    closed spec fn holds(&self, items: Seq<M>) -> bool {
        (W > 0) == (H > 0) && self.merged.wf() && self.merged@ == items
    }

    open spec fn result_holds(result: &RectangularMosaicSet<W, H, M>, items: Seq<M>) -> bool {
        result.wf() && result@ == items
    }

    fn new_shard(&mut self) -> (shard: InMemoryRectangularMosaicShardBuilder<W, H, M>) {
        InMemoryRectangularMosaicShardBuilder { set: RectangularMosaicSet::new() }
    }

    fn merge(&mut self, partial: RectangularMosaicSet<W, H, M>) {
        self.merged.extend(partial);
    }

    fn finish(self) -> (result: RectangularMosaicSet<W, H, M>) {
        self.merged
    }
}

/// Keeps the items of one unit of work in a set of mosaics of its own.
pub struct InMemoryRectangularMosaicShardBuilder<const W: usize, const H: usize, M: RectangularMosaic<W, H>> {
    set: RectangularMosaicSet<W, H, M>,
}

impl<const W: usize, const H: usize, M: RectangularMosaic<W, H>> ShardBuilder for InMemoryRectangularMosaicShardBuilder<W, H, M> {
    type Item = M;

    type Partial = RectangularMosaicSet<W, H, M>;

    closed spec fn holds(&self, items: Seq<M>) -> bool {
        (W > 0) == (H > 0) && self.set.wf() && self.set@ == items
    }

    open spec fn partial_holds(partial: &RectangularMosaicSet<W, H, M>, items: Seq<M>) -> bool {
        partial.wf() && partial@ == items
    }

    fn insert(&mut self, item: M) {
        self.set.insert(item);
    }

    fn finish(self) -> (partial: RectangularMosaicSet<W, H, M>) {
        self.set
    }
}

} // verus!
