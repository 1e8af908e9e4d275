use crate::set::builder::{count_one_more, count_sum, saturated, SetBuilder, ShardBuilder};
use vstd::prelude::*;

verus! {

/// The first of `items`, if there is one.
pub open spec fn first_of<T>(items: Seq<T>) -> Option<T> {
    if items.len() > 0 {
        Some(items[0])
    } else {
        None
    }
}

/// Counts the items that its shards take in and keeps the first of them as a
/// sample. A count that has reached the greatest number a counter holds
/// stays there.
pub struct CountingSamplingSetBuilder<T> {
    count: usize,
    sample: Option<T>,
}

impl<T> CountingSamplingSetBuilder<T> {
    pub fn new() -> (builder: Self)
        ensures
            builder.holds(Seq::empty()),
    {
        CountingSamplingSetBuilder { count: 0, sample: None }
    }
}

impl<T> SetBuilder for CountingSamplingSetBuilder<T> {
    type Item = T;

    type Shard = CountingSamplingShardBuilder<T>;

    type Result = (usize, Option<T>);

    closed spec fn holds(&self, items: Seq<T>) -> bool {
        self.count == saturated(items.len()) && self.sample == first_of(items)
    }

    open spec fn result_holds(result: &(usize, Option<T>), items: Seq<T>) -> bool {
        result.0 == saturated(items.len()) && result.1 == first_of(items)
    }

    fn new_shard(&mut self) -> (shard: CountingSamplingShardBuilder<T>) {
        CountingSamplingShardBuilder { count: 0, sample: None }
    }

    fn merge(&mut self, partial: (usize, Option<T>)) {
        let (count, sample) = partial;
        self.count = count_sum(self.count, count);
        if self.sample.is_none() {
            self.sample = sample;
        }
    }

    fn finish(self) -> (result: (usize, Option<T>)) {
        (self.count, self.sample)
    }
}

/// Counts the items of one unit of work and keeps the first of them.
pub struct CountingSamplingShardBuilder<T> {
    count: usize,
    sample: Option<T>,
}

impl<T> ShardBuilder for CountingSamplingShardBuilder<T> {
    type Item = T;

    type Partial = (usize, Option<T>);

    closed spec fn holds(&self, items: Seq<T>) -> bool {
        self.count == saturated(items.len()) && self.sample == first_of(items)
    }

    open spec fn partial_holds(partial: &(usize, Option<T>), items: Seq<T>) -> bool {
        partial.0 == saturated(items.len()) && partial.1 == first_of(items)
    }

    fn insert(&mut self, item: T) {
        self.count = count_one_more(self.count);
        if self.sample.is_none() {
            self.sample = Some(item);
        }
    }

    fn finish(self) -> (partial: (usize, Option<T>)) {
        (self.count, self.sample)
    }
}

} // verus!
