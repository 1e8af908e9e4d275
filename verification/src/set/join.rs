use crate::mosaic::{ArrayMosaic, RectangularMosaic, SquareMosaic};
use crate::set::builder::ShardBuilder;
use crate::set::combine::{
    combine_rectangles_vertically_to_square, combine_squares_horizontally_to_rectangle,
    spec_combine_rectangles_vertically, spec_combine_squares_horizontally,
};
use crate::set::filter::{MemoFilter, Memoizer};
use vstd::prelude::*;

verus! {

/// Makes one mosaic of a first and a second half, where they go together.
pub trait Combine<VA, VB> {
    type Item;

    /// The sizes of the halves and of the whole fit.
    spec fn spec_usable(&self) -> bool;

    spec fn spec_combine(&self, a: VA, b: VB) -> Option<Self::Item>;

    fn combine(&self, a: VA, b: VB) -> (combined: Option<Self::Item>)
        requires
            self.spec_usable(),
        ensures
            combined == self.spec_combine(a, b),
    ;
}

/// Lays two square mosaics side by side, the first to the left.
pub struct SideBySide<const SHORT: usize, const LONG: usize>;

impl<const SHORT: usize, const LONG: usize, A: SquareMosaic<SHORT>, B: SquareMosaic<SHORT>> Combine<A, B> for SideBySide<SHORT, LONG> {
    type Item = ArrayMosaic<LONG, SHORT>;

    open spec fn spec_usable(&self) -> bool {
        LONG == 2 * SHORT
    }

    open spec fn spec_combine(&self, a: A, b: B) -> Option<ArrayMosaic<LONG, SHORT>> {
        spec_combine_squares_horizontally::<SHORT, LONG, A, B>(&a, &b)
    }

    fn combine(&self, a: A, b: B) -> (combined: Option<ArrayMosaic<LONG, SHORT>>) {
        combine_squares_horizontally_to_rectangle(a, b)
    }
}

/// Lays two rectangular mosaics one above the other, the first on top.
pub struct Stacked<const SHORT: usize, const LONG: usize>;

impl<const SHORT: usize, const LONG: usize, A: RectangularMosaic<LONG, SHORT>, B: RectangularMosaic<LONG, SHORT>> Combine<A, B> for Stacked<SHORT, LONG> {
    type Item = ArrayMosaic<LONG, LONG>;

    open spec fn spec_usable(&self) -> bool {
        LONG == 2 * SHORT
    }

    open spec fn spec_combine(&self, a: A, b: B) -> Option<ArrayMosaic<LONG, LONG>> {
        spec_combine_rectangles_vertically::<SHORT, LONG, A, B>(&a, &b)
    }

    fn combine(&self, a: A, b: B) -> (combined: Option<ArrayMosaic<LONG, LONG>>) {
        combine_rectangles_vertically_to_square(a, b)
    }
}

/// The views of a list of numbered views.
pub open spec fn views_of<V>(numbered: Seq<(usize, V)>) -> Seq<V> {
    Seq::new(numbered.len(), |i: int| numbered[i].1)
}

/// What the first half `a` gives with the second halves `bs`, one by one:
/// for each that the filter takes and that goes together with `a`, the
/// mosaic made of the two.
pub open spec fn row_items<VA, VB, Memo, FB: MemoFilter<Memo, VB>, C: Combine<VA, VB>>(
    a: VA,
    bs: Seq<VB>,
    memo: Memo,
    filter: &FB,
    combiner: &C,
) -> Seq<C::Item>
    decreases bs.len(),
{
    if bs.len() == 0 {
        Seq::empty()
    } else {
        let earlier = row_items(a, bs.drop_last(), memo, filter, combiner);
        if filter.spec_accepts(&memo, bs.last()) && combiner.spec_combine(a, bs.last()) is Some {
            earlier.push(combiner.spec_combine(a, bs.last())->0)
        } else {
            earlier
        }
    }
}

/// What the first halves `firsts` give with the second halves `bs`: for each
/// first half that the memoizer takes, in order, what it gives with `bs`.
pub open spec fn pair_items<VA, VB, MA: Memoizer<VA>, FB: MemoFilter<MA::Memo, VB>, C: Combine<VA, VB>>(
    firsts: Seq<VA>,
    bs: Seq<VB>,
    memoizer: &MA,
    filter: &FB,
    combiner: &C,
) -> Seq<C::Item>
    decreases firsts.len(),
{
    if firsts.len() == 0 {
        Seq::empty()
    } else {
        let earlier = pair_items(firsts.drop_last(), bs, memoizer, filter, combiner);
        match memoizer.spec_memo(firsts.last()) {
            Some(memo) => earlier + row_items(firsts.last(), bs, memo, filter, combiner),
            None => earlier,
        }
    }
}

/// Puts into `shard` what the first halves `firsts` give with the second
/// halves `seconds`.
pub fn fill_shard<
    VA: Copy,
    VB: Copy,
    S: ShardBuilder,
    MA: Memoizer<VA>,
    FB: MemoFilter<MA::Memo, VB>,
    C: Combine<VA, VB, Item = S::Item>,
>(
    shard: &mut S,
    firsts: &Vec<(usize, VA)>,
    seconds: &Vec<(usize, VB)>,
    memoizer: &MA,
    filter: &FB,
    combiner: &C,
)
    requires
        exists|items: Seq<S::Item>| old(shard).holds(items),
        combiner.spec_usable(),
    ensures
        forall|items: Seq<S::Item>| #[trigger]
            old(shard).holds(items) ==> final(shard).holds(
                items + pair_items(
                    views_of(firsts@),
                    views_of(seconds@),
                    memoizer,
                    filter,
                    combiner,
                ),
            ),
{
    let ghost base = choose|items: Seq<S::Item>| shard.holds(items);
    let ghost before = *shard;
    let ghost firsts_seen = views_of(firsts@);
    let ghost seconds_seen = views_of(seconds@);
    proof {
        assert forall|items: Seq<S::Item>| #[trigger] before.holds(items) implies shard.holds(
            items + pair_items(firsts_seen.take(0), seconds_seen, memoizer, filter, combiner),
        ) by {
            assert(items + Seq::<S::Item>::empty() =~= items);
        }
    }
    let mut i: usize = 0;
    while i < firsts.len()
        invariant
            i <= firsts@.len(),
            combiner.spec_usable(),
            firsts_seen == views_of(firsts@),
            seconds_seen == views_of(seconds@),
            before.holds(base),
            forall|items: Seq<S::Item>| #[trigger]
                before.holds(items) ==> shard.holds(
                    items + pair_items(
                        firsts_seen.take(i as int),
                        seconds_seen,
                        memoizer,
                        filter,
                        combiner,
                    ),
                ),
        decreases firsts@.len() - i,
    {
        let a = firsts[i].1;
        let ghost done = pair_items(firsts_seen.take(i as int), seconds_seen, memoizer, filter, combiner);
        proof {
            assert(firsts_seen.take(i + 1).drop_last() =~= firsts_seen.take(i as int));
            assert(firsts_seen.take(i + 1).last() == a);
        }
        match memoizer.memo(a) {
            None => {},
            Some(memo) => {
                proof {
                    assert forall|items: Seq<S::Item>| #[trigger] before.holds(items) implies shard.holds(
                        items + (done + row_items(a, seconds_seen.take(0), memo, filter, combiner)),
                    ) by {
                        assert(done + Seq::<S::Item>::empty() =~= done);
                    }
                }
                let mut j: usize = 0;
                while j < seconds.len()
                    invariant
                        j <= seconds@.len(),
                        combiner.spec_usable(),
                        seconds_seen == views_of(seconds@),
                        before.holds(base),
                        forall|items: Seq<S::Item>| #[trigger]
                            before.holds(items) ==> shard.holds(
                                items + (done + row_items(
                                    a,
                                    seconds_seen.take(j as int),
                                    memo,
                                    filter,
                                    combiner,
                                )),
                            ),
                    decreases seconds@.len() - j,
                {
                    let b = seconds[j].1;
                    let ghost row = row_items(a, seconds_seen.take(j as int), memo, filter, combiner);
                    proof {
                        assert(seconds_seen.take(j + 1).drop_last() =~= seconds_seen.take(j as int));
                        assert(seconds_seen.take(j + 1).last() == b);
                    }
                    if filter.accepts(&memo, b) {
                        match combiner.combine(a, b) {
                            None => {},
                            Some(item) => {
                                let ghost earlier = *shard;
                                proof {
                                    assert(earlier.holds(base + (done + row)));
                                }
                                shard.insert(item);
                                proof {
                                    assert forall|items: Seq<S::Item>| #[trigger]
                                        before.holds(items) implies shard.holds(
                                        items + (done + row.push(item)),
                                    ) by {
                                        assert(earlier.holds(items + (done + row)));
                                        assert((items + (done + row)).push(item) =~= items + (done
                                            + row.push(item)));
                                    }
                                }
                            },
                        }
                    }
                    j = j + 1;
                }
                proof {
                    assert(seconds_seen.take(j as int) =~= seconds_seen);
                }
            },
        }
        i = i + 1;
    }
    proof {
        assert(firsts_seen.take(i as int) =~= firsts_seen);
    }
}

/// Each mosaic that a first half gives with a list of second halves is made
/// of it and one of them that the filter takes.
pub proof fn lemma_row_items_are_combined<VA, VB, Memo, FB: MemoFilter<Memo, VB>, C: Combine<VA, VB>>(
    a: VA,
    bs: Seq<VB>,
    memo: Memo,
    filter: &FB,
    combiner: &C,
    i: int,
)
    requires
        0 <= i < row_items(a, bs, memo, filter, combiner).len(),
    ensures
        exists|q: int|
            0 <= q < bs.len() && filter.spec_accepts(&memo, bs[q]) && #[trigger] combiner.spec_combine(
                a,
                bs[q],
            ) == Some(row_items(a, bs, memo, filter, combiner)[i]),
    decreases bs.len(),
{
    let earlier = row_items(a, bs.drop_last(), memo, filter, combiner);
    if i < earlier.len() {
        lemma_row_items_are_combined(a, bs.drop_last(), memo, filter, combiner, i);
        let q = choose|q: int|
            0 <= q < bs.drop_last().len() && filter.spec_accepts(&memo, bs.drop_last()[q])
                && #[trigger] combiner.spec_combine(a, bs.drop_last()[q]) == Some(earlier[i]);
        assert(bs.drop_last()[q] == bs[q]);
        assert(0 <= q < bs.len() && filter.spec_accepts(&memo, bs[q]) && combiner.spec_combine(
            a,
            bs[q],
        ) == Some(row_items(a, bs, memo, filter, combiner)[i]));
    } else {
        let q = bs.len() - 1;
        assert(0 <= q < bs.len() && filter.spec_accepts(&memo, bs[q]) && combiner.spec_combine(
            a,
            bs[q],
        ) == Some(row_items(a, bs, memo, filter, combiner)[i]));
    }
}

/// Each mosaic that a list of first halves gives with a list of second
/// halves is made of a first half that the memoizer takes and a second half
/// that the filter takes with the note made of the first.
pub proof fn lemma_pair_items_are_combined<
    VA,
    VB,
    MA: Memoizer<VA>,
    FB: MemoFilter<MA::Memo, VB>,
    C: Combine<VA, VB>,
>(firsts: Seq<VA>, bs: Seq<VB>, memoizer: &MA, filter: &FB, combiner: &C, i: int)
    requires
        0 <= i < pair_items(firsts, bs, memoizer, filter, combiner).len(),
    ensures
        exists|p: int, q: int|
            0 <= p < firsts.len() && 0 <= q < bs.len() && memoizer.spec_memo(firsts[p]) is Some
                && filter.spec_accepts(&memoizer.spec_memo(firsts[p])->0, bs[q])
                && #[trigger] combiner.spec_combine(firsts[p], bs[q]) == Some(
                pair_items(firsts, bs, memoizer, filter, combiner)[i],
            ),
    decreases firsts.len(),
{
    let earlier = pair_items(firsts.drop_last(), bs, memoizer, filter, combiner);
    let item = pair_items(firsts, bs, memoizer, filter, combiner)[i];
    if i < earlier.len() {
        lemma_pair_items_are_combined(firsts.drop_last(), bs, memoizer, filter, combiner, i);
        let (p, q) = choose|p: int, q: int|
            0 <= p < firsts.drop_last().len() && 0 <= q < bs.len() && memoizer.spec_memo(
                firsts.drop_last()[p],
            ) is Some && filter.spec_accepts(&memoizer.spec_memo(firsts.drop_last()[p])->0, bs[q])
                && #[trigger] combiner.spec_combine(firsts.drop_last()[p], bs[q]) == Some(
                earlier[i],
            );
        assert(firsts.drop_last()[p] == firsts[p]);
        assert(0 <= p < firsts.len() && 0 <= q < bs.len() && memoizer.spec_memo(firsts[p]) is Some
            && filter.spec_accepts(&memoizer.spec_memo(firsts[p])->0, bs[q])
            && combiner.spec_combine(firsts[p], bs[q]) == Some(item));
    } else {
        let p = firsts.len() - 1;
        let memo = memoizer.spec_memo(firsts.last())->0;
        lemma_row_items_are_combined(firsts.last(), bs, memo, filter, combiner, i - earlier.len());
        let q = choose|q: int|
            0 <= q < bs.len() && filter.spec_accepts(&memo, bs[q]) && #[trigger] combiner.spec_combine(
                firsts.last(),
                bs[q],
            ) == Some(row_items(firsts.last(), bs, memo, filter, combiner)[i - earlier.len()]);
        assert(0 <= p < firsts.len() && 0 <= q < bs.len() && memoizer.spec_memo(firsts[p]) is Some
            && filter.spec_accepts(&memoizer.spec_memo(firsts[p])->0, bs[q])
            && combiner.spec_combine(firsts[p], bs[q]) == Some(item));
    }
}

/// The second half that the mosaic at position `i` of what a first half gives
/// is made with.
proof fn lemma_row_item_second<VA, VB, Memo, FB: MemoFilter<Memo, VB>, C: Combine<VA, VB>>(
    a: VA,
    bs: Seq<VB>,
    memo: Memo,
    filter: &FB,
    combiner: &C,
    i: int,
) -> (q: int)
    requires
        0 <= i < row_items(a, bs, memo, filter, combiner).len(),
    ensures
        0 <= q < bs.len(),
        combiner.spec_combine(a, bs[q]) == Some(row_items(a, bs, memo, filter, combiner)[i]),
{
    lemma_row_items_are_combined(a, bs, memo, filter, combiner, i);
    choose|q: int|
        0 <= q < bs.len() && filter.spec_accepts(&memo, bs[q]) && #[trigger] combiner.spec_combine(
            a,
            bs[q],
        ) == Some(row_items(a, bs, memo, filter, combiner)[i])
}

/// What a first half gives with a list of second halves stands in the order
/// of the second halves, and no second half is taken twice: of two of the
/// mosaics, the earlier is made with an earlier second half.
pub proof fn lemma_row_items_are_in_order<VA, VB, Memo, FB: MemoFilter<Memo, VB>, C: Combine<VA, VB>>(
    a: VA,
    bs: Seq<VB>,
    memo: Memo,
    filter: &FB,
    combiner: &C,
    i1: int,
    i2: int,
) -> (seconds: (int, int))
    requires
        0 <= i1 < i2 < row_items(a, bs, memo, filter, combiner).len(),
    ensures
        0 <= seconds.0 < seconds.1 < bs.len(),
        combiner.spec_combine(a, bs[seconds.0]) == Some(
            row_items(a, bs, memo, filter, combiner)[i1],
        ),
        combiner.spec_combine(a, bs[seconds.1]) == Some(
            row_items(a, bs, memo, filter, combiner)[i2],
        ),
    decreases bs.len(),
{
    let earlier = row_items(a, bs.drop_last(), memo, filter, combiner);
    if i2 < earlier.len() {
        let (q1, q2) = lemma_row_items_are_in_order(a, bs.drop_last(), memo, filter, combiner, i1, i2);
        assert(bs.drop_last()[q1] == bs[q1]);
        assert(bs.drop_last()[q2] == bs[q2]);
        (q1, q2)
    } else {
        let q1 = lemma_row_item_second(a, bs.drop_last(), memo, filter, combiner, i1);
        assert(bs.drop_last()[q1] == bs[q1]);
        (q1, bs.len() - 1)
    }
}

/// The first and the second half that the mosaic at position `i` of what a
/// list of first halves gives is made of.
pub proof fn lemma_pair_item_halves<
    VA,
    VB,
    MA: Memoizer<VA>,
    FB: MemoFilter<MA::Memo, VB>,
    C: Combine<VA, VB>,
>(firsts: Seq<VA>, bs: Seq<VB>, memoizer: &MA, filter: &FB, combiner: &C, i: int) -> (halves: (
    int,
    int,
))
    requires
        0 <= i < pair_items(firsts, bs, memoizer, filter, combiner).len(),
    ensures
        0 <= halves.0 < firsts.len(),
        0 <= halves.1 < bs.len(),
        combiner.spec_combine(firsts[halves.0], bs[halves.1]) == Some(
            pair_items(firsts, bs, memoizer, filter, combiner)[i],
        ),
{
    lemma_pair_items_are_combined(firsts, bs, memoizer, filter, combiner, i);
    choose|p: int, q: int|
        0 <= p < firsts.len() && 0 <= q < bs.len() && memoizer.spec_memo(firsts[p]) is Some
            && filter.spec_accepts(&memoizer.spec_memo(firsts[p])->0, bs[q])
            && #[trigger] combiner.spec_combine(firsts[p], bs[q]) == Some(
            pair_items(firsts, bs, memoizer, filter, combiner)[i],
        )
}

/// What a list of first halves gives with a list of second halves stands in
/// the order of the first halves, then of the second, and no pair is taken
/// twice: of two of the mosaics, the earlier is made with an earlier first
/// half, or with the same first half and an earlier second half.
pub proof fn lemma_pair_items_are_in_order<
    VA,
    VB,
    MA: Memoizer<VA>,
    FB: MemoFilter<MA::Memo, VB>,
    C: Combine<VA, VB>,
>(
    firsts: Seq<VA>,
    bs: Seq<VB>,
    memoizer: &MA,
    filter: &FB,
    combiner: &C,
    i1: int,
    i2: int,
) -> (halves: (int, int, int, int))
    requires
        0 <= i1 < i2 < pair_items(firsts, bs, memoizer, filter, combiner).len(),
    ensures
        0 <= halves.0 <= halves.2 < firsts.len(),
        0 <= halves.1 < bs.len(),
        0 <= halves.3 < bs.len(),
        halves.0 == halves.2 ==> halves.1 < halves.3,
        combiner.spec_combine(firsts[halves.0], bs[halves.1]) == Some(
            pair_items(firsts, bs, memoizer, filter, combiner)[i1],
        ),
        combiner.spec_combine(firsts[halves.2], bs[halves.3]) == Some(
            pair_items(firsts, bs, memoizer, filter, combiner)[i2],
        ),
    decreases firsts.len(),
{
    let earlier = pair_items(firsts.drop_last(), bs, memoizer, filter, combiner);
    if i2 < earlier.len() {
        let (p1, q1, p2, q2) = lemma_pair_items_are_in_order(
            firsts.drop_last(),
            bs,
            memoizer,
            filter,
            combiner,
            i1,
            i2,
        );
        assert(firsts.drop_last()[p1] == firsts[p1]);
        assert(firsts.drop_last()[p2] == firsts[p2]);
        (p1, q1, p2, q2)
    } else {
        let memo = memoizer.spec_memo(firsts.last())->0;
        let q2 = lemma_row_item_second(firsts.last(), bs, memo, filter, combiner, i2 - earlier.len());
        if i1 < earlier.len() {
            let (p1, q1) = lemma_pair_item_halves(firsts.drop_last(), bs, memoizer, filter, combiner, i1);
            assert(firsts.drop_last()[p1] == firsts[p1]);
            (p1, q1, firsts.len() - 1, q2)
        } else {
            let (q1, q2) = lemma_row_items_are_in_order(
                firsts.last(),
                bs,
                memo,
                filter,
                combiner,
                i1 - earlier.len(),
                i2 - earlier.len(),
            );
            (firsts.len() - 1, q1, firsts.len() - 1, q2)
        }
    }
}

} // verus!
