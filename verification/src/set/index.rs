use crate::edge::{edge_less, lemma_edge_less_asymmetric, lemma_edge_less_transitive, ArrayEdge, Comparison};
use crate::Color;
use vstd::prelude::*;

verus! {

/// A stored mosaic, named by its slot, together with a rotation to see it in.
#[derive(Clone, Copy, Debug, PartialEq, Eq, PartialOrd, Ord, Hash)]
pub struct RotatedIndex<R> {
    pub index: usize,
    pub rotation: R,
}

impl<R> RotatedIndex<R> {
    /// The same entry with its slot moved up by `base`.
    pub open spec fn shifted(self, base: int) -> RotatedIndex<R> {
        RotatedIndex { index: (self.index + base) as usize, rotation: self.rotation }
    }
}

/// The entries that were filed under one edge, in the order of their filing.
#[derive(Clone, Debug)]
pub struct Bucket<const N: usize, R> {
    pub edge: ArrayEdge<N>,
    pub entries: Vec<RotatedIndex<R>>,
}

/// Entries filed under edges of length `N`. The edges are kept in ascending
/// order, each once, and none without an entry.
#[derive(Clone, Debug)]
pub struct EdgeIndex<const N: usize, R> {
    pub buckets: Vec<Bucket<N, R>>,
}

/// Of the entries `entries`, filed one by one under the edges `keys`, those
/// filed under `edge`, in the order of their filing.
pub open spec fn filed_under<R>(
    keys: Seq<Seq<Color>>,
    entries: Seq<RotatedIndex<R>>,
    edge: Seq<Color>,
) -> Seq<RotatedIndex<R>>
    decreases keys.len(),
{
    if keys.len() == 0 || entries.len() == 0 {
        Seq::empty()
    } else {
        let earlier = filed_under(keys.drop_last(), entries.drop_last(), edge);
        if keys.last() == edge {
            earlier.push(entries.last())
        } else {
            earlier
        }
    }
}

/// Each of `entries` with its slot moved up by `base`.
pub open spec fn shifted_entries<R>(entries: Seq<RotatedIndex<R>>, base: int) -> Seq<
    RotatedIndex<R>,
> {
    Seq::new(entries.len(), |i: int| entries[i].shifted(base))
}

impl<const N: usize, R: Copy> EdgeIndex<N, R> {
    /// The edge of the bucket at position `j`.
    pub open spec fn key(&self, j: int) -> Seq<Color> {
        self.buckets@[j].edge@
    }

    /// The bucket at position `j` is the one of `edge`.
    pub open spec fn holds_at(&self, j: int, edge: Seq<Color>) -> bool {
        0 <= j < self.buckets@.len() && self.key(j) == edge
    }

    /// The entries filed under `edge`, in the order of their filing.
    pub open spec fn stored(&self, edge: Seq<Color>) -> Seq<RotatedIndex<R>> {
        if exists|j: int| self.holds_at(j, edge) {
            self.buckets@[choose|j: int| self.holds_at(j, edge)].entries@
        } else {
            Seq::empty()
        }
    }

    /// The edges stand in ascending order and no bucket is empty.
    pub open spec fn wf(&self) -> bool {
        &&& forall|i: int, j: int|
            0 <= i < j < self.buckets@.len() ==> edge_less(#[trigger] self.key(i), #[trigger] self.key(j))
        &&& forall|j: int|
            0 <= j < self.buckets@.len() ==> (#[trigger] self.buckets@[j]).entries@.len() > 0
    }

    /// The index holds exactly the entries `entries`, filed one by one under
    /// the edges `keys`.
    pub open spec fn represents(&self, keys: Seq<Seq<Color>>, entries: Seq<RotatedIndex<R>>) -> bool {
        forall|edge: Seq<Color>| #[trigger] self.stored(edge) == filed_under(keys, entries, edge)
    }

    /// In a well-formed index the bucket of an edge is found at one position
    /// only.
    pub proof fn lemma_stored_at(&self, j: int, edge: Seq<Color>)
        requires
            self.wf(),
            self.holds_at(j, edge),
        ensures
            self.stored(edge) == self.buckets@[j].entries@,
    {
        let k = choose|k: int| self.holds_at(k, edge);
        if k < j {
            lemma_edge_less_asymmetric(self.key(k), self.key(j));
        }
        if j < k {
            lemma_edge_less_asymmetric(self.key(j), self.key(k));
        }
    }

    /// The index that holds nothing.
    pub fn new() -> (index: Self)
        ensures
            index.wf(),
            index.buckets@.len() == 0,
            index.represents(Seq::empty(), Seq::empty()),
    {
        EdgeIndex { buckets: Vec::new() }
    }

    /// Number of edges under which something is filed.
    pub fn bucket_count(&self) -> (count: usize)
        ensures
            count == self.buckets@.len(),
    {
        self.buckets.len()
    }

    /// Looks `edge` up: the position of its bucket, or else the position at
    /// which its bucket would have to stand.
    pub fn find(&self, edge: &ArrayEdge<N>) -> (found: Result<usize, usize>)
        requires
            self.wf(),
        ensures
            match found {
                Ok(j) => self.holds_at(j as int, edge@),
                Err(p) => {
                    &&& p <= self.buckets@.len()
                    &&& forall|j: int| 0 <= j < p ==> edge_less(#[trigger] self.key(j), edge@)
                    &&& forall|j: int|
                        p <= j < self.buckets@.len() ==> edge_less(edge@, #[trigger] self.key(j))
                    &&& forall|j: int| !self.holds_at(j, edge@)
                },
            },
    {
        let mut low: usize = 0;
        let mut high: usize = self.buckets.len();
        while low < high
            invariant
                self.wf(),
                low <= high <= self.buckets@.len(),
                forall|j: int| 0 <= j < low ==> edge_less(#[trigger] self.key(j), edge@),
                forall|j: int|
                    high <= j < self.buckets@.len() ==> edge_less(edge@, #[trigger] self.key(j)),
            decreases high - low,
        {
            let middle = low + (high - low) / 2;
            match self.buckets[middle].edge.compare(edge) {
                Comparison::Equal => {
                    return Ok(middle);
                },
                Comparison::Less => {
                    assert forall|j: int| 0 <= j < middle + 1 implies edge_less(
                        #[trigger] self.key(j),
                        edge@,
                    ) by {
                        if j < middle {
                            lemma_edge_less_transitive(
                                self.key(j),
                                self.key(middle as int),
                                edge@,
                            );
                        }
                    }
                    low = middle + 1;
                },
                Comparison::Greater => {
                    assert forall|j: int| middle <= j < self.buckets@.len() implies edge_less(
                        edge@,
                        #[trigger] self.key(j),
                    ) by {
                        if middle < j {
                            lemma_edge_less_transitive(
                                edge@,
                                self.key(middle as int),
                                self.key(j),
                            );
                        }
                    }
                    high = middle;
                },
            }
        }
        proof {
            assert forall|j: int| !self.holds_at(j, edge@) by {
                if self.holds_at(j, edge@) {
                    if j < low {
                        lemma_edge_less_asymmetric(self.key(j), edge@);
                    } else {
                        lemma_edge_less_asymmetric(edge@, self.key(j));
                    }
                }
            }
        }
        Err(low)
    }

    /// The entries filed under `edge`, if there are any.
    pub fn get(&self, edge: &ArrayEdge<N>) -> (entries: Option<&Vec<RotatedIndex<R>>>)
        requires
            self.wf(),
        ensures
            match entries {
                Some(entries) => entries@ == self.stored(edge@) && entries@.len() > 0,
                None => self.stored(edge@).len() == 0,
            },
    {
        match self.find(edge) {
            Ok(j) => {
                proof {
                    self.lemma_stored_at(j as int, edge@);
                }
                Some(&self.buckets[j].entries)
            },
            Err(_) => None,
        }
    }

    /// Filing one more entry under `edge` adds it to what is filed under
    /// `edge` and leaves the rest as it was.
    pub proof fn lemma_represents_one_more(
        &self,
        before: &Self,
        keys: Seq<Seq<Color>>,
        entries: Seq<RotatedIndex<R>>,
        edge: Seq<Color>,
        entry: RotatedIndex<R>,
    )
        requires
            before.represents(keys, entries),
            keys.len() == entries.len(),
            self.stored(edge) == before.stored(edge).push(entry),
            forall|other: Seq<Color>| other != edge ==> self.stored(other) == before.stored(other),
        ensures
            self.represents(keys.push(edge), entries.push(entry)),
    {
        assert(keys.push(edge).drop_last() =~= keys);
        assert(entries.push(entry).drop_last() =~= entries);
        assert forall|other: Seq<Color>| #[trigger]
            self.stored(other) == filed_under(keys.push(edge), entries.push(entry), other) by {
            assert(before.stored(other) == filed_under(keys, entries, other));
        }
    }

    /// Files `entry` under `edge`, behind what is filed there already.
    pub fn push(&mut self, edge: ArrayEdge<N>, entry: RotatedIndex<R>)
        requires
            old(self).wf(),
        ensures
            final(self).wf(),
            final(self).stored(edge@) == old(self).stored(edge@).push(entry),
            forall|other: Seq<Color>|
                other != edge@ ==> #[trigger] final(self).stored(other) == old(self).stored(other),
    {
        let ghost before = *self;
        match self.find(&edge) {
            Ok(j) => {
                self.buckets[j].entries.push(entry);
                proof {
                    assert(self.buckets@.len() == before.buckets@.len());
                    assert(self.buckets@[j as int].edge == before.buckets@[j as int].edge);
                    assert(self.buckets@[j as int].entries@ == before.buckets@[j as int].entries@.push(
                        entry,
                    ));
                    assert forall|k: int| 0 <= k < self.buckets@.len() && k != j implies self.buckets@[k]
                        == before.buckets@[k] by {}
                    assert forall|k: int| 0 <= k < self.buckets@.len() implies #[trigger] self.key(k)
                        == before.key(k) by {}
                    assert forall|i: int, k: int| 0 <= i < k < self.buckets@.len() implies edge_less(
                        #[trigger] self.key(i),
                        #[trigger] self.key(k),
                    ) by {
                        assert(edge_less(before.key(i), before.key(k)));
                    }
                    assert forall|k: int| 0 <= k < self.buckets@.len() implies (
                    #[trigger] self.buckets@[k]).entries@.len() > 0 by {
                        if k != j {
                            assert(self.buckets@[k] == before.buckets@[k]);
                        }
                    }
                    assert(self.wf());
                    before.lemma_stored_at(j as int, edge@);
                    assert(self.holds_at(j as int, edge@));
                    self.lemma_stored_at(j as int, edge@);
                    assert forall|other: Seq<Color>| other != edge@ implies #[trigger] self.stored(
                        other,
                    ) == before.stored(other) by {
                        if exists|k: int| before.holds_at(k, other) {
                            let k = choose|k: int| before.holds_at(k, other);
                            assert(self.holds_at(k, other));
                            before.lemma_stored_at(k, other);
                            self.lemma_stored_at(k, other);
                        } else {
                            assert forall|k: int| !self.holds_at(k, other) by {
                                if self.holds_at(k, other) {
                                    assert(before.holds_at(k, other));
                                }
                            }
                        }
                    }
                }
            },
            Err(p) => {
                let mut entries: Vec<RotatedIndex<R>> = Vec::new();
                entries.push(entry);
                self.buckets.insert(p, Bucket { edge, entries });
                proof {
                    assert forall|k: int| 0 <= k < self.buckets@.len() implies #[trigger] self.key(
                        k,
                    ) == (if k < p {
                        before.key(k)
                    } else if k == p {
                        edge@
                    } else {
                        before.key(k - 1)
                    }) by {}
                    assert forall|i: int, j: int| 0 <= i < j < self.buckets@.len() implies edge_less(
                        #[trigger] self.key(i),
                        #[trigger] self.key(j),
                    ) by {
                        if i < p && j > p {
                            assert(edge_less(before.key(i), before.key(j - 1)));
                        } else if i > p {
                            assert(edge_less(before.key(i - 1), before.key(j - 1)));
                        } else if j < p {
                            assert(edge_less(before.key(i), before.key(j)));
                        }
                    }
                    assert forall|j: int| 0 <= j < self.buckets@.len() implies (
                    #[trigger] self.buckets@[j]).entries@.len() > 0 by {
                        if j < p {
                            assert(self.buckets@[j] == before.buckets@[j]);
                        } else if j > p {
                            assert(self.buckets@[j] == before.buckets@[j - 1]);
                        }
                    }
                    assert(self.wf());
                    assert(self.holds_at(p as int, edge@));
                    self.lemma_stored_at(p as int, edge@);
                    assert(before.stored(edge@) =~= Seq::empty());
                    assert(self.stored(edge@) =~= before.stored(edge@).push(entry));
                    assert forall|other: Seq<Color>| other != edge@ implies #[trigger] self.stored(
                        other,
                    ) == before.stored(other) by {
                        if exists|k: int| before.holds_at(k, other) {
                            let k = choose|k: int| before.holds_at(k, other);
                            let moved = if k < p {
                                k
                            } else {
                                k + 1
                            };
                            assert(self.holds_at(moved, other));
                            before.lemma_stored_at(k, other);
                            self.lemma_stored_at(moved, other);
                        } else {
                            assert forall|k: int| !self.holds_at(k, other) by {
                                if self.holds_at(k, other) {
                                    if k < p {
                                        assert(before.holds_at(k, other));
                                    } else {
                                        assert(before.holds_at(k - 1, other));
                                    }
                                }
                            }
                        }
                    }
                }
            },
        }
    }

    /// What of `self` has been taken over once its first `j` buckets and the
    /// first `i` entries of the next one are: the part of that which is filed
    /// under `edge`.
    pub open spec fn taken_over(&self, j: int, i: int, edge: Seq<Color>) -> Seq<RotatedIndex<R>> {
        if exists|k: int| 0 <= k < j && self.holds_at(k, edge) {
            self.stored(edge)
        } else if self.holds_at(j, edge) {
            self.buckets@[j].entries@.take(i)
        } else {
            Seq::empty()
        }
    }

    /// Files every entry of `other` under its edge, behind what is filed
    /// there already, with its slot moved up by `base`.
    pub fn append_shifted(&mut self, other: &EdgeIndex<N, R>, base: usize)
        requires
            old(self).wf(),
            other.wf(),
            forall|j: int, i: int|
                0 <= j < other.buckets@.len() && 0 <= i < other.buckets@[j].entries@.len() ==> (
                #[trigger] other.buckets@[j].entries@[i]).index + base <= usize::MAX,
        ensures
            final(self).wf(),
            forall|edge: Seq<Color>| #[trigger]
                final(self).stored(edge) == old(self).stored(edge) + shifted_entries(
                    other.stored(edge),
                    base as int,
                ),
    {
        let ghost before = *self;
        let count = other.buckets.len();
        let mut j: usize = 0;
        proof {
            assert forall|edge: Seq<Color>| #[trigger]
                self.stored(edge) == before.stored(edge) + shifted_entries(
                    other.taken_over(0, 0, edge),
                    base as int,
                ) by {
                assert(other.taken_over(0, 0, edge) =~= Seq::empty());
                assert(before.stored(edge) + shifted_entries(other.taken_over(0, 0, edge), base as int)
                    =~= before.stored(edge));
            }
        }
        while j < count
            invariant
                j <= count,
                count == other.buckets@.len(),
                self.wf(),
                other.wf(),
                forall|j: int, i: int|
                    0 <= j < other.buckets@.len() && 0 <= i < other.buckets@[j].entries@.len() ==> (
                    #[trigger] other.buckets@[j].entries@[i]).index + base <= usize::MAX,
                forall|edge: Seq<Color>| #[trigger]
                    self.stored(edge) == before.stored(edge) + shifted_entries(
                        other.taken_over(j as int, 0, edge),
                        base as int,
                    ),
            decreases count - j,
        {
            let bucket = &other.buckets[j];
            let length = bucket.entries.len();
            let mut i: usize = 0;
            while i < length
                invariant
                    i <= length,
                    j < count,
                    count == other.buckets@.len(),
                    *bucket == other.buckets@[j as int],
                    length == bucket.entries@.len(),
                    self.wf(),
                    other.wf(),
                    forall|j: int, i: int|
                        0 <= j < other.buckets@.len() && 0 <= i < other.buckets@[j].entries@.len()
                            ==> (#[trigger] other.buckets@[j].entries@[i]).index + base
                            <= usize::MAX,
                    forall|edge: Seq<Color>| #[trigger]
                        self.stored(edge) == before.stored(edge) + shifted_entries(
                            other.taken_over(j as int, i as int, edge),
                            base as int,
                        ),
                decreases length - i,
            {
                let entry = bucket.entries[i];
                let ghost earlier = *self;
                let moved = RotatedIndex { index: entry.index + base, rotation: entry.rotation };
                self.push(bucket.edge, moved);
                proof {
                    let key = bucket.edge@;
                    assert(other.holds_at(j as int, key));
                    assert forall|edge: Seq<Color>| #[trigger]
                        self.stored(edge) == before.stored(edge) + shifted_entries(
                            other.taken_over(j as int, i + 1, edge),
                            base as int,
                        ) by {
                        assert(earlier.stored(edge) == before.stored(edge) + shifted_entries(
                            other.taken_over(j as int, i as int, edge),
                            base as int,
                        ));
                        if edge == key {
                            assert forall|k: int| !(0 <= k < j && other.holds_at(k, edge)) by {
                                if 0 <= k < j && other.holds_at(k, edge) {
                                    lemma_edge_less_asymmetric(other.key(k), other.key(j as int));
                                }
                            }
                            assert(bucket.entries@.take(i + 1) =~= bucket.entries@.take(
                                i as int,
                            ).push(entry));
                            assert(shifted_entries(bucket.entries@.take(i + 1), base as int)
                                =~= shifted_entries(bucket.entries@.take(i as int), base as int).push(
                                moved,
                            ));
                            assert(self.stored(edge) =~= before.stored(edge) + shifted_entries(
                                other.taken_over(j as int, i + 1, edge),
                                base as int,
                            ));
                        } else {
                            assert(other.taken_over(j as int, i + 1, edge) == other.taken_over(
                                j as int,
                                i as int,
                                edge,
                            ));
                        }
                    }
                }
                i = i + 1;
            }
            proof {
                assert forall|edge: Seq<Color>| #[trigger]
                    self.stored(edge) == before.stored(edge) + shifted_entries(
                        other.taken_over(j + 1, 0, edge),
                        base as int,
                    ) by {
                    assert(self.stored(edge) == before.stored(edge) + shifted_entries(
                        other.taken_over(j as int, length as int, edge),
                        base as int,
                    ));
                    if exists|k: int| 0 <= k < j && other.holds_at(k, edge) {
                        let k = choose|k: int| 0 <= k < j && other.holds_at(k, edge);
                        assert(0 <= k < j + 1 && other.holds_at(k, edge));
                    } else if other.holds_at(j as int, edge) {
                        other.lemma_stored_at(j as int, edge);
                        assert(bucket.entries@.take(length as int) =~= bucket.entries@);
                        assert(0 <= j < j + 1 && other.holds_at(j as int, edge));
                    } else {
                        assert forall|k: int| !(0 <= k < j + 1 && other.holds_at(k, edge)) by {}
                        if other.holds_at(j + 1, edge) {
                            assert(other.buckets@[j + 1].entries@.take(0) =~= Seq::empty());
                        }
                    }
                }
            }
            j = j + 1;
        }
        proof {
            assert forall|edge: Seq<Color>| #[trigger]
                self.stored(edge) == before.stored(edge) + shifted_entries(
                    other.stored(edge),
                    base as int,
                ) by {
                assert(self.stored(edge) == before.stored(edge) + shifted_entries(
                    other.taken_over(count as int, 0, edge),
                    base as int,
                ));
                if exists|k: int| 0 <= k < count && other.holds_at(k, edge) {
                } else {
                    assert forall|k: int| !other.holds_at(k, edge) by {}
                    assert(other.stored(edge) =~= Seq::empty());
                }
            }
        }
    }
}

/// The edges stand in ascending order.
pub open spec fn ascending<const N: usize>(edges: Seq<ArrayEdge<N>>) -> bool {
    forall|i: int, j: int|
        0 <= i < j < edges.len() ==> edge_less((#[trigger] edges[i])@, (#[trigger] edges[j])@)
}

/// Two lists of edges in ascending order that hold the same edges are the
/// same list.
pub proof fn lemma_ascending_edges_are_determined<const N: usize>(
    first: Seq<ArrayEdge<N>>,
    second: Seq<ArrayEdge<N>>,
)
    requires
        ascending(first),
        ascending(second),
        forall|edge: ArrayEdge<N>| first.contains(edge) <==> second.contains(edge),
    ensures
        first == second,
    decreases first.len(),
{
    if first.len() == 0 {
        if second.len() > 0 {
            assert(second.contains(second[0]));
        }
        assert(first =~= second);
    } else {
        let last = first.last();
        assert(first.contains(last));
        let at = choose|at: int| 0 <= at < second.len() && second[at] == last;
        if at < second.len() - 1 {
            let greater = second.last();
            assert(second.contains(greater));
            let back = choose|back: int| 0 <= back < first.len() && first[back] == greater;
            assert(edge_less(second[at]@, second[second.len() - 1]@));
            if back < first.len() - 1 {
                assert(edge_less(first[back]@, first[first.len() - 1]@));
                lemma_edge_less_asymmetric(greater@, last@);
            } else {
                lemma_edge_less_asymmetric(last@, greater@);
            }
        }
        assert(second.last() == last);
        assert forall|edge: ArrayEdge<N>| first.drop_last().contains(edge) <==> second.drop_last().contains(
            edge,
        ) by {
            if first.drop_last().contains(edge) {
                let i = choose|i: int| 0 <= i < first.drop_last().len() && first.drop_last()[i] == edge;
                assert(first[i] == edge);
                assert(edge_less(first[i]@, first[first.len() - 1]@));
                lemma_edge_less_asymmetric(edge@, last@);
                assert(first.contains(edge));
                let k = choose|k: int| 0 <= k < second.len() && second[k] == edge;
                assert(second.drop_last()[k] == edge);
            }
            if second.drop_last().contains(edge) {
                let i = choose|i: int|
                    0 <= i < second.drop_last().len() && second.drop_last()[i] == edge;
                assert(second[i] == edge);
                assert(edge_less(second[i]@, second[second.len() - 1]@));
                lemma_edge_less_asymmetric(edge@, last@);
                assert(second.contains(edge));
                let k = choose|k: int| 0 <= k < first.len() && first[k] == edge;
                assert(first.drop_last()[k] == edge);
            }
        }
        assert(ascending(first.drop_last())) by {
            assert forall|i: int, j: int| 0 <= i < j < first.drop_last().len() implies edge_less(
                (#[trigger] first.drop_last()[i])@,
                (#[trigger] first.drop_last()[j])@,
            ) by {
                assert(edge_less(first[i]@, first[j]@));
            }
        }
        assert(ascending(second.drop_last())) by {
            assert forall|i: int, j: int| 0 <= i < j < second.drop_last().len() implies edge_less(
                (#[trigger] second.drop_last()[i])@,
                (#[trigger] second.drop_last()[j])@,
            ) by {
                assert(edge_less(second[i]@, second[j]@));
            }
        }
        lemma_ascending_edges_are_determined(first.drop_last(), second.drop_last());
        assert(first =~= first.drop_last().push(last));
        assert(second =~= second.drop_last().push(last));
    }
}

/// Filing entries with their slots moved up files the same entries under
/// each edge, moved up.
pub proof fn lemma_filed_under_shifted<R>(
    keys: Seq<Seq<Color>>,
    entries: Seq<RotatedIndex<R>>,
    base: int,
    edge: Seq<Color>,
)
    requires
        keys.len() == entries.len(),
    ensures
        filed_under(keys, shifted_entries(entries, base), edge) == shifted_entries(
            filed_under(keys, entries, edge),
            base,
        ),
    decreases keys.len(),
{
    if keys.len() == 0 {
        assert(shifted_entries(filed_under(keys, entries, edge), base) =~= Seq::empty());
    } else {
        lemma_filed_under_shifted(keys.drop_last(), entries.drop_last(), base, edge);
        assert(shifted_entries(entries, base).drop_last() =~= shifted_entries(
            entries.drop_last(),
            base,
        ));
        let earlier = filed_under(keys.drop_last(), entries.drop_last(), edge);
        if keys.last() == edge {
            assert(shifted_entries(earlier.push(entries.last()), base) =~= shifted_entries(
                earlier,
                base,
            ).push(entries.last().shifted(base)));
        }
    }
}

/// Filing one run of entries after another files under each edge what the
/// first run files there, followed by what the second files there.
pub proof fn lemma_filed_under_concat<R>(
    keys: Seq<Seq<Color>>,
    entries: Seq<RotatedIndex<R>>,
    more_keys: Seq<Seq<Color>>,
    more_entries: Seq<RotatedIndex<R>>,
    edge: Seq<Color>,
)
    requires
        keys.len() == entries.len(),
        more_keys.len() == more_entries.len(),
    ensures
        filed_under(keys + more_keys, entries + more_entries, edge) == filed_under(
            keys,
            entries,
            edge,
        ) + filed_under(more_keys, more_entries, edge),
    decreases more_keys.len(),
{
    if more_keys.len() == 0 {
        assert(keys + more_keys =~= keys);
        assert(entries + more_entries =~= entries);
        assert(filed_under(keys, entries, edge) + filed_under(more_keys, more_entries, edge)
            =~= filed_under(keys, entries, edge));
    } else {
        lemma_filed_under_concat(
            keys,
            entries,
            more_keys.drop_last(),
            more_entries.drop_last(),
            edge,
        );
        assert((keys + more_keys).drop_last() =~= keys + more_keys.drop_last());
        assert((entries + more_entries).drop_last() =~= entries + more_entries.drop_last());
        let first = filed_under(keys, entries, edge);
        let second = filed_under(more_keys.drop_last(), more_entries.drop_last(), edge);
        if more_keys.last() == edge {
            assert((first + second).push(more_entries.last()) =~= first + second.push(
                more_entries.last(),
            ));
        }
    }
}

/// An entry is filed under an edge exactly if it was filed at some position
/// under that edge.
pub proof fn lemma_filed_under_contains<R>(
    keys: Seq<Seq<Color>>,
    entries: Seq<RotatedIndex<R>>,
    edge: Seq<Color>,
    entry: RotatedIndex<R>,
)
    requires
        keys.len() == entries.len(),
    ensures
        filed_under(keys, entries, edge).contains(entry) <==> exists|k: int|
            0 <= k < keys.len() && keys[k] == edge && #[trigger] entries[k] == entry,
    decreases keys.len(),
{
    let filed = filed_under(keys, entries, edge);
    if keys.len() == 0 {
        assert(!filed.contains(entry));
    } else {
        let last = keys.len() - 1;
        let earlier = filed_under(keys.drop_last(), entries.drop_last(), edge);
        lemma_filed_under_contains(keys.drop_last(), entries.drop_last(), edge, entry);
        if filed.contains(entry) {
            let at = choose|at: int| 0 <= at < filed.len() && filed[at] == entry;
            if keys.last() == edge && at == earlier.len() {
                assert(entries[last] == entry);
            } else {
                assert(earlier[at] == entry);
                assert(earlier.contains(entry));
                let k = choose|k: int|
                    0 <= k < keys.drop_last().len() && keys.drop_last()[k] == edge
                        && #[trigger] entries.drop_last()[k] == entry;
                assert(entries[k] == entry);
            }
        }
        if exists|k: int| 0 <= k < keys.len() && keys[k] == edge && #[trigger] entries[k] == entry {
            let k = choose|k: int|
                0 <= k < keys.len() && keys[k] == edge && #[trigger] entries[k] == entry;
            if k == last {
                assert(filed[earlier.len() as int] == entry);
            } else {
                assert(entries.drop_last()[k] == entry);
                assert(keys.drop_last()[k] == edge);
                assert(earlier.contains(entry));
                let at = choose|at: int| 0 <= at < earlier.len() && earlier[at] == entry;
                assert(filed[at] == entry);
            }
        }
    }
}

/// What is filed under an edge stands in the order of its filing: of two of
/// these entries, the earlier was filed at an earlier position.
pub proof fn lemma_filed_under_in_order<R>(
    keys: Seq<Seq<Color>>,
    entries: Seq<RotatedIndex<R>>,
    edge: Seq<Color>,
    p: int,
    q: int,
) -> (places: (int, int))
    requires
        keys.len() == entries.len(),
        0 <= p < q < filed_under(keys, entries, edge).len(),
    ensures
        0 <= places.0 < places.1 < keys.len(),
        keys[places.0] == edge,
        keys[places.1] == edge,
        entries[places.0] == filed_under(keys, entries, edge)[p],
        entries[places.1] == filed_under(keys, entries, edge)[q],
    decreases keys.len(),
{
    let earlier = filed_under(keys.drop_last(), entries.drop_last(), edge);
    if q < earlier.len() {
        lemma_filed_under_in_order(keys.drop_last(), entries.drop_last(), edge, p, q)
    } else {
        let last = keys.len() - 1;
        assert(earlier.contains(earlier[p]));
        lemma_filed_under_contains(keys.drop_last(), entries.drop_last(), edge, earlier[p]);
        let k = choose|k: int|
            0 <= k < keys.drop_last().len() && keys.drop_last()[k] == edge
                && #[trigger] entries.drop_last()[k] == earlier[p];
        (k, last)
    }
}

impl<const N: usize, R: Copy> EdgeIndex<N, R> {
    /// Taking over what another index holds, moved up, is filing its entries
    /// behind one's own.
    pub proof fn lemma_represents_appended(
        &self,
        before: &Self,
        other: &Self,
        base: int,
        keys: Seq<Seq<Color>>,
        entries: Seq<RotatedIndex<R>>,
        more_keys: Seq<Seq<Color>>,
        more_entries: Seq<RotatedIndex<R>>,
    )
        requires
            before.represents(keys, entries),
            other.represents(more_keys, more_entries),
            keys.len() == entries.len(),
            more_keys.len() == more_entries.len(),
            forall|edge: Seq<Color>| #[trigger]
                self.stored(edge) == before.stored(edge) + shifted_entries(other.stored(edge), base),
        ensures
            self.represents(keys + more_keys, entries + shifted_entries(more_entries, base)),
    {
        assert forall|edge: Seq<Color>| #[trigger]
            self.stored(edge) == filed_under(
                keys + more_keys,
                entries + shifted_entries(more_entries, base),
                edge,
            ) by {
            assert(before.stored(edge) == filed_under(keys, entries, edge));
            assert(other.stored(edge) == filed_under(more_keys, more_entries, edge));
            lemma_filed_under_shifted(more_keys, more_entries, base, edge);
            lemma_filed_under_concat(
                keys,
                entries,
                more_keys,
                shifted_entries(more_entries, base),
                edge,
            );
        }
    }
}

} // verus!
