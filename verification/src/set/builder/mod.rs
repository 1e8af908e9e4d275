use vstd::prelude::*;

pub mod counting;
pub mod counting_sampling;
pub mod in_memory_rectangular_mosaic;
pub mod in_memory_square_mosaic;

verus! {

/// Takes in, one by one, the items that one unit of work produces, and
/// condenses them into a partial result.
pub trait ShardBuilder: Sized {
    type Item;

    /// What the shard hands over when its unit of work is done.
    type Partial;

    /// The state of the shard is the one that taking in exactly `items`, in
    /// this order, leads to.
    spec fn holds(&self, items: Seq<Self::Item>) -> bool;

    /// `partial` is what a shard hands over that has taken in exactly
    /// `items`, in this order.
    spec fn partial_holds(partial: &Self::Partial, items: Seq<Self::Item>) -> bool;

    fn insert(&mut self, item: Self::Item)
        requires
            exists|items: Seq<Self::Item>| old(self).holds(items),
        ensures
            forall|items: Seq<Self::Item>| #[trigger]
                old(self).holds(items) ==> final(self).holds(items.push(item)),
    ;

    fn finish(self) -> (partial: Self::Partial)
        requires
            exists|items: Seq<Self::Item>| self.holds(items),
        ensures
            forall|items: Seq<Self::Item>| #[trigger]
                self.holds(items) ==> Self::partial_holds(&partial, items),
    ;
}

/// Hands out shards, one for each unit of work, and merges what they hand
/// over into one result.
pub trait SetBuilder: Sized {
    type Item;

    type Shard: ShardBuilder<Item = Self::Item>;

    type Result;

    /// The state of the builder is the one that merging shards which took in
    /// `items` between them, in this order, leads to.
    spec fn holds(&self, items: Seq<Self::Item>) -> bool;

    /// `result` is what a builder returns whose shards took in `items`
    /// between them, in this order.
    spec fn result_holds(result: &Self::Result, items: Seq<Self::Item>) -> bool;

    fn new_shard(&mut self) -> (shard: Self::Shard)
        requires
            exists|items: Seq<Self::Item>| old(self).holds(items),
        ensures
            shard.holds(Seq::empty()),
            forall|items: Seq<Self::Item>| #[trigger]
                old(self).holds(items) ==> final(self).holds(items),
    ;

    /// Takes over what a shard of this builder has handed over.
    fn merge(&mut self, partial: <Self::Shard as ShardBuilder>::Partial)
        requires
            exists|items: Seq<Self::Item>| old(self).holds(items),
            exists|items: Seq<Self::Item>| Self::Shard::partial_holds(&partial, items),
        ensures
            forall|merged: Seq<Self::Item>, items: Seq<Self::Item>|
                #[trigger] old(self).holds(merged) && #[trigger] Self::Shard::partial_holds(
                    &partial,
                    items,
                ) ==> final(self).holds(merged + items),
    ;

    fn finish(self) -> (result: Self::Result)
        requires
            exists|items: Seq<Self::Item>| self.holds(items),
        ensures
            forall|items: Seq<Self::Item>| #[trigger]
                self.holds(items) ==> Self::result_holds(&result, items),
    ;
}

/// The number `count` cut off at the greatest number that a counter holds.
pub open spec fn saturated(count: nat) -> usize {
    if count <= usize::MAX {
        count as usize
    } else {
        usize::MAX
    }
}

/// The counter that follows `count`, held back at the greatest number.
pub fn count_one_more(count: usize) -> (next: usize)
    ensures
        forall|n: nat| count == saturated(n) ==> next == #[trigger] saturated(n + 1),
{
    if count < usize::MAX {
        count + 1
    } else {
        count
    }
}

/// The sum of two counters, held back at the greatest number.
pub fn count_sum(count: usize, more: usize) -> (sum: usize)
    ensures
        forall|n: nat, m: nat|
            count == #[trigger] saturated(n) && more == #[trigger] saturated(m) ==> sum
                == saturated(n + m),
{
    if more <= usize::MAX - count {
        count + more
    } else {
        usize::MAX
    }
}

/// Counting the items of a run gives the length of the set that holds them:
/// a count and a set of square mosaics that come of the same items agree.
pub proof fn lemma_count_is_len_of_square_set<const N: usize, M: crate::mosaic::SquareMosaic<N>>(
    count: usize,
    set: &crate::set::square::SquareMosaicSet<N, M>,
    items: Seq<M>,
)
    requires
        counting::CountingSetBuilder::<M>::result_holds(&count, items),
        in_memory_square_mosaic::InMemorySquareMosaicSetBuilder::<N, M>::result_holds(set, items),
    ensures
        count == set@.len(),
{
    set.lemma_len_fits();
}

/// Counting the items of a run gives the length of the set that holds them:
/// a count and a set of rectangular mosaics that come of the same items
/// agree.
pub proof fn lemma_count_is_len_of_rectangular_set<
    const W: usize,
    const H: usize,
    M: crate::mosaic::RectangularMosaic<W, H>,
>(count: usize, set: &crate::set::rectangle::RectangularMosaicSet<W, H, M>, items: Seq<M>)
    requires
        counting::CountingSetBuilder::<M>::result_holds(&count, items),
        in_memory_rectangular_mosaic::InMemoryRectangularMosaicSetBuilder::<W, H, M>::result_holds(
            set,
            items,
        ),
    ensures
        count == set@.len(),
{
    set.lemma_len_fits();
}

/// A sample is one of the items that were counted, and there is one
/// whenever there is an item.
pub proof fn lemma_sample_is_an_item<T>(result: (usize, Option<T>), items: Seq<T>)
    requires
        counting_sampling::CountingSamplingSetBuilder::<T>::result_holds(&result, items),
    ensures
        result.1 is Some <==> items.len() > 0,
        result.1 is Some ==> items.contains(result.1->0),
        result.0 > 0 <==> result.1 is Some,
{
    if items.len() > 0 {
        assert(items[0] == result.1->0);
    }
}

} // verus!
