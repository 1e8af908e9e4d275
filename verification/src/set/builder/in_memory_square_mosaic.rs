use crate::mosaic::SquareMosaic;
use crate::set::builder::{SetBuilder, ShardBuilder};
use crate::set::square::SquareMosaicSet;
use vstd::prelude::*;

verus! {

/// Keeps every item that its shards take in, in one set of mosaics.
pub struct InMemorySquareMosaicSetBuilder<const N: usize, M: SquareMosaic<N>> {
    merged: SquareMosaicSet<N, M>,
}

impl<const N: usize, M: SquareMosaic<N>> InMemorySquareMosaicSetBuilder<N, M> {
    pub fn new() -> (builder: Self)
        ensures
            builder.holds(Seq::empty()),
    {
        InMemorySquareMosaicSetBuilder { merged: SquareMosaicSet::new() }
    }
}

impl<const N: usize, M: SquareMosaic<N>> SetBuilder for InMemorySquareMosaicSetBuilder<N, M> {
    type Item = M;

    type Shard = InMemorySquareMosaicShardBuilder<N, M>;

    type Result = SquareMosaicSet<N, M>;

    closed spec fn holds(&self, items: Seq<M>) -> bool {
        self.merged.wf() && self.merged@ == items
    }

    open spec fn result_holds(result: &SquareMosaicSet<N, M>, items: Seq<M>) -> bool {
        result.wf() && result@ == items
    }

    fn new_shard(&mut self) -> (shard: InMemorySquareMosaicShardBuilder<N, M>) {
        InMemorySquareMosaicShardBuilder { set: SquareMosaicSet::new() }
    }

    fn merge(&mut self, partial: SquareMosaicSet<N, M>) {
        self.merged.extend(partial);
    }

    fn finish(self) -> (result: SquareMosaicSet<N, M>) {
        self.merged
    }
}

/// Keeps the items of one unit of work in a set of mosaics of its own.
pub struct InMemorySquareMosaicShardBuilder<const N: usize, M: SquareMosaic<N>> {
    set: SquareMosaicSet<N, M>,
}

impl<const N: usize, M: SquareMosaic<N>> ShardBuilder for InMemorySquareMosaicShardBuilder<N, M> {
    type Item = M;

    type Partial = SquareMosaicSet<N, M>;

    closed spec fn holds(&self, items: Seq<M>) -> bool {
        self.set.wf() && self.set@ == items
    }

    open spec fn partial_holds(partial: &SquareMosaicSet<N, M>, items: Seq<M>) -> bool {
        partial.wf() && partial@ == items
    }

    fn insert(&mut self, item: M) {
        self.set.insert(item);
    }

    fn finish(self) -> (partial: SquareMosaicSet<N, M>) {
        self.set
    }
}

} // verus!
