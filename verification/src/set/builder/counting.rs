use crate::set::builder::{count_one_more, count_sum, saturated, SetBuilder, ShardBuilder};
use core::marker::PhantomData;
use vstd::prelude::*;

verus! {

/// Counts the items that its shards take in, and keeps none of them. A count
/// that has reached the greatest number a counter holds stays there.
pub struct CountingSetBuilder<T> {
    count: usize,
    _phantom_t: PhantomData<T>,
}

impl<T> CountingSetBuilder<T> {
    pub fn new() -> (builder: Self)
        ensures
            builder.holds(Seq::empty()),
    {
        CountingSetBuilder { count: 0, _phantom_t: PhantomData }
    }
}

impl<T> SetBuilder for CountingSetBuilder<T> {
    type Item = T;

    type Shard = CountingShardBuilder<T>;

    type Result = usize;

    closed spec fn holds(&self, items: Seq<T>) -> bool {
        self.count == saturated(items.len())
    }

    open spec fn result_holds(result: &usize, items: Seq<T>) -> bool {
        *result == saturated(items.len())
    }

    fn new_shard(&mut self) -> (shard: CountingShardBuilder<T>) {
        CountingShardBuilder { count: 0, _phantom_t: PhantomData }
    }

    fn merge(&mut self, partial: usize) {
        self.count = count_sum(self.count, partial);
    }

    fn finish(self) -> (result: usize) {
        self.count
    }
}

/// Counts the items of one unit of work.
pub struct CountingShardBuilder<T> {
    count: usize,
    _phantom_t: PhantomData<T>,
}

impl<T> ShardBuilder for CountingShardBuilder<T> {
    type Item = T;

    type Partial = usize;

    closed spec fn holds(&self, items: Seq<T>) -> bool {
        self.count == saturated(items.len())
    }

    open spec fn partial_holds(partial: &usize, items: Seq<T>) -> bool {
        *partial == saturated(items.len())
    }

    fn insert(&mut self, _item: T) {
        self.count = count_one_more(self.count);
    }

    fn finish(self) -> (partial: usize) {
        self.count
    }
}

} // verus!
