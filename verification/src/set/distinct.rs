use crate::edge::lemma_edge_less_asymmetric;
use crate::mosaic::{
    lemma_same_tiles_is_same_grid, same_tiles, ArrayMosaic, RectangularMosaic,
    RotatedRectangularMosaic, RotatedSquareMosaic, SquareMosaic,
};
use crate::rectangular::RectangularRotation;
use crate::set::combine::lemma_combined_squares;
use crate::set::filter::{LeastTile, LeastTileUprightOrLeft, MemoFilter, Memoizer};
use crate::set::index::RotatedIndex;
use crate::set::join::{
    lemma_pair_item_halves, lemma_pair_items_are_in_order, Combine, SideBySide,
};
use crate::set::least_tile::lemma_built_rectangular_centers_hold_no_half_turns;
use crate::set::square::{
    lemma_distinct_orbits_tell_slots_apart, lemma_query_finds_each_slot_once,
    lemma_query_is_sound, orbits_distinct, slots_collide, spec_query, spec_views,
    SquareMosaicSet,
};
use crate::set::{
    lemma_rectangles_come_from_a_bucket, rectangles_from_buckets, spec_build_rectangles_memo,
};
use crate::{Rotation, Side};
use vstd::prelude::*;

verus! {

/// Mosaics that hold the same rotated tile in every cell, cell by cell, are
/// the same.
pub proof fn lemma_same_tiles_is_same_mosaic<const W: usize, const H: usize>(
    first: ArrayMosaic<W, H>,
    second: ArrayMosaic<W, H>,
)
    requires
        same_tiles(&first, &second),
    ensures
        first == second,
{
    assert forall|y: int| 0 <= y < H implies #[trigger] first.tiles@[y] == second.tiles@[y] by {
        assert forall|x: int| 0 <= x < W implies #[trigger] first.tiles@[y]@[x] == second.tiles@[y]@[x] by {
            assert(first.spec_get(x, y) == second.spec_get(x, y));
        }
        assert(first.tiles@[y] =~= second.tiles@[y]);
    }
    assert(first.tiles =~= second.tiles);
}

/// The first halves filed under the edge at position `j` of `a_set`.
pub open spec fn firsts_of_bucket<'a, const SHORT: usize, MosaicA: SquareMosaic<SHORT> + 'a>(
    a_set: &SquareMosaicSet<SHORT, MosaicA>,
    j: int,
) -> Seq<RotatedIndex<Rotation>> {
    spec_query(a_set@, Side::Right, a_set.edges()[j]@)
}

/// The second halves of `b_set` that fit the first halves filed under the
/// edge at position `j` of `a_set`.
pub open spec fn seconds_of_bucket<
    'a,
    const SHORT: usize,
    MosaicA: SquareMosaic<SHORT> + 'a,
    MosaicB: SquareMosaic<SHORT> + 'a,
>(
    a_set: &SquareMosaicSet<SHORT, MosaicA>,
    b_set: &SquareMosaicSet<SHORT, MosaicB>,
    j: int,
) -> Seq<RotatedIndex<Rotation>> {
    spec_query(b_set@, Side::Left, a_set.edges()[j]@.reverse())
}

/// Rectangles made of different pairs of halves are different, where no two
/// of the first halves show the same grid in any rotations, and no two of the
/// second halves.
proof fn lemma_other_halves_give_another_rectangle<
    'a,
    const SHORT: usize,
    const LONG: usize,
    MosaicA: SquareMosaic<SHORT> + 'a,
    MosaicB: SquareMosaic<SHORT> + 'a,
>(
    a_set: &SquareMosaicSet<SHORT, MosaicA>,
    b_set: &SquareMosaicSet<SHORT, MosaicB>,
    j1: int,
    p1: int,
    q1: int,
    j2: int,
    p2: int,
    q2: int,
)
    requires
        LONG == 2 * SHORT,
        a_set.wf(),
        b_set.wf(),
        orbits_distinct(a_set@),
        orbits_distinct(b_set@),
        0 <= j1 < a_set.edges().len(),
        0 <= j2 < a_set.edges().len(),
        0 <= p1 < firsts_of_bucket(a_set, j1).len(),
        0 <= p2 < firsts_of_bucket(a_set, j2).len(),
        0 <= q1 < seconds_of_bucket(a_set, b_set, j1).len(),
        0 <= q2 < seconds_of_bucket(a_set, b_set, j2).len(),
        !(j1 == j2 && p1 == p2 && q1 == q2),
        SideBySide::<SHORT, LONG>.spec_combine(
            spec_views::<SHORT, MosaicA>(a_set@, firsts_of_bucket(a_set, j1))[p1],
            spec_views::<SHORT, MosaicB>(b_set@, seconds_of_bucket(a_set, b_set, j1))[q1],
        ) is Some,
    ensures
        SideBySide::<SHORT, LONG>.spec_combine(
            spec_views::<SHORT, MosaicA>(a_set@, firsts_of_bucket(a_set, j1))[p1],
            spec_views::<SHORT, MosaicB>(b_set@, seconds_of_bucket(a_set, b_set, j1))[q1],
        ) != SideBySide::<SHORT, LONG>.spec_combine(
            spec_views::<SHORT, MosaicA>(a_set@, firsts_of_bucket(a_set, j2))[p2],
            spec_views::<SHORT, MosaicB>(b_set@, seconds_of_bucket(a_set, b_set, j2))[q2],
        ),
{
    let edge1 = a_set.edges()[j1]@;
    let edge2 = a_set.edges()[j2]@;
    let sa1 = firsts_of_bucket(a_set, j1)[p1];
    let sa2 = firsts_of_bucket(a_set, j2)[p2];
    let sb1 = seconds_of_bucket(a_set, b_set, j1)[q1];
    let sb2 = seconds_of_bucket(a_set, b_set, j2)[q2];
    let a1 = spec_views::<SHORT, MosaicA>(a_set@, firsts_of_bucket(a_set, j1))[p1];
    let a2 = spec_views::<SHORT, MosaicA>(a_set@, firsts_of_bucket(a_set, j2))[p2];
    let b1 = spec_views::<SHORT, MosaicB>(b_set@, seconds_of_bucket(a_set, b_set, j1))[q1];
    let b2 = spec_views::<SHORT, MosaicB>(b_set@, seconds_of_bucket(a_set, b_set, j2))[q2];
    let made1 = SideBySide::<SHORT, LONG>.spec_combine(a1, b1);
    let made2 = SideBySide::<SHORT, LONG>.spec_combine(a2, b2);
    if made1 == made2 {
        let item = made1->0;
        a_set.lemma_len_fits();
        b_set.lemma_len_fits();
        lemma_combined_squares::<SHORT, LONG, RotatedSquareMosaic<SHORT, MosaicA>, RotatedSquareMosaic<SHORT, MosaicB>>(&a1, &b1);
        lemma_combined_squares::<SHORT, LONG, RotatedSquareMosaic<SHORT, MosaicA>, RotatedSquareMosaic<SHORT, MosaicB>>(&a2, &b2);
        assert forall|x: int, y: int| 0 <= x < SHORT && 0 <= y < SHORT implies #[trigger] a1.spec_get(x, y)
            == a2.spec_get(x, y) by {
            assert(item.spec_get(x, y) == a1.spec_get(x, y));
            assert(item.spec_get(x, y) == a2.spec_get(x, y));
        }
        assert forall|x: int, y: int| 0 <= x < SHORT && 0 <= y < SHORT implies #[trigger] b1.spec_get(x, y)
            == b2.spec_get(x, y) by {
            assert(item.spec_get(x + SHORT, y) == b1.spec_get(x, y));
            assert(item.spec_get(x + SHORT, y) == b2.spec_get(x, y));
        }
        lemma_same_tiles_is_same_grid(&a1, &a2);
        lemma_same_tiles_is_same_grid(&b1, &b2);
        lemma_query_is_sound(a_set@, Side::Right, edge1, p1);
        lemma_query_is_sound(a_set@, Side::Right, edge2, p2);
        lemma_query_is_sound(b_set@, Side::Left, edge1.reverse(), q1);
        lemma_query_is_sound(b_set@, Side::Left, edge2.reverse(), q2);
        assert(slots_collide(a_set@, sa1, sa2));
        assert(slots_collide(b_set@, sb1, sb2));
        lemma_distinct_orbits_tell_slots_apart(a_set@, sa1, sa2);
        lemma_distinct_orbits_tell_slots_apart(b_set@, sb1, sb2);
        assert(edge1 == edge2);
        a_set.lemma_edges();
        if j1 < j2 {
            lemma_edge_less_asymmetric(edge1, edge2);
        } else if j2 < j1 {
            lemma_edge_less_asymmetric(edge2, edge1);
        }
        if p1 < p2 {
            lemma_query_finds_each_slot_once(a_set@, Side::Right, edge1, p1, p2);
        } else if p2 < p1 {
            lemma_query_finds_each_slot_once(a_set@, Side::Right, edge1, p2, p1);
        }
        if q1 < q2 {
            lemma_query_finds_each_slot_once(b_set@, Side::Left, edge1.reverse(), q1, q2);
        } else if q2 < q1 {
            lemma_query_finds_each_slot_once(b_set@, Side::Left, edge1.reverse(), q2, q1);
        }
    }
}

/// No rectangle is built twice: where no two of the first halves show the
/// same grid in any rotations, and no two of the second halves, the
/// rectangles made of the first halves filed under the first `count` edges
/// differ from each other.
pub proof fn lemma_no_rectangle_is_built_twice<
    'a,
    const SHORT: usize,
    const LONG: usize,
    MosaicA: SquareMosaic<SHORT> + 'a,
    MosaicB: SquareMosaic<SHORT> + 'a,
    MA: Memoizer<RotatedSquareMosaic<'a, SHORT, MosaicA>>,
    FB: MemoFilter<MA::Memo, RotatedSquareMosaic<'a, SHORT, MosaicB>>,
>(
    a_set: &SquareMosaicSet<SHORT, MosaicA>,
    count: nat,
    a_memo: &MA,
    b_set: &SquareMosaicSet<SHORT, MosaicB>,
    b_filter: &FB,
    i1: int,
    i2: int,
)
    requires
        LONG == 2 * SHORT,
        a_set.wf(),
        b_set.wf(),
        orbits_distinct(a_set@),
        orbits_distinct(b_set@),
        count <= a_set.edges().len(),
        0 <= i1 < i2 < rectangles_from_buckets::<SHORT, LONG, MosaicA, MosaicB, MA, FB>(
            a_set,
            count,
            a_memo,
            b_set,
            b_filter,
        ).len(),
    ensures
        rectangles_from_buckets::<SHORT, LONG, MosaicA, MosaicB, MA, FB>(
            a_set,
            count,
            a_memo,
            b_set,
            b_filter,
        )[i1] != rectangles_from_buckets::<SHORT, LONG, MosaicA, MosaicB, MA, FB>(
            a_set,
            count,
            a_memo,
            b_set,
            b_filter,
        )[i2],
    decreases count,
{
    let earlier = rectangles_from_buckets::<SHORT, LONG, MosaicA, MosaicB, MA, FB>(
        a_set,
        (count - 1) as nat,
        a_memo,
        b_set,
        b_filter,
    );
    let last = count - 1;
    let firsts = spec_views::<SHORT, MosaicA>(a_set@, firsts_of_bucket(a_set, last));
    let seconds = spec_views::<SHORT, MosaicB>(b_set@, seconds_of_bucket(a_set, b_set, last));
    if i2 < earlier.len() {
        lemma_no_rectangle_is_built_twice::<SHORT, LONG, MosaicA, MosaicB, MA, FB>(
            a_set,
            (count - 1) as nat,
            a_memo,
            b_set,
            b_filter,
            i1,
            i2,
        );
    } else if i1 < earlier.len() {
        let (j1, k1) = lemma_rectangles_come_from_a_bucket::<SHORT, LONG, MosaicA, MosaicB, MA, FB>(
            a_set,
            (count - 1) as nat,
            a_memo,
            b_set,
            b_filter,
            i1,
        );
        let firsts1 = spec_views::<SHORT, MosaicA>(a_set@, firsts_of_bucket(a_set, j1));
        let seconds1 = spec_views::<SHORT, MosaicB>(b_set@, seconds_of_bucket(a_set, b_set, j1));
        let (p1, q1) = lemma_pair_item_halves(
            firsts1,
            seconds1,
            a_memo,
            b_filter,
            &SideBySide::<SHORT, LONG>,
            k1,
        );
        let (p2, q2) = lemma_pair_item_halves(
            firsts,
            seconds,
            a_memo,
            b_filter,
            &SideBySide::<SHORT, LONG>,
            i2 - earlier.len(),
        );
        lemma_other_halves_give_another_rectangle::<SHORT, LONG, MosaicA, MosaicB>(
            a_set,
            b_set,
            j1,
            p1,
            q1,
            last,
            p2,
            q2,
        );
    } else {
        let (p1, q1, p2, q2) = lemma_pair_items_are_in_order(
            firsts,
            seconds,
            a_memo,
            b_filter,
            &SideBySide::<SHORT, LONG>,
            i1 - earlier.len(),
            i2 - earlier.len(),
        );
        lemma_other_halves_give_another_rectangle::<SHORT, LONG, MosaicA, MosaicB>(
            a_set,
            b_set,
            last,
            p1,
            q1,
            last,
            p2,
            q2,
        );
    }
}

/// The rectangles built of two centers by the rules for rectangular centers
/// show different grids, whatever the rotations in which they are seen, where
/// the centers do.
pub proof fn lemma_built_rectangular_centers_are_distinct<
    'a,
    const SHORT: usize,
    const LONG: usize,
    M: SquareMosaic<SHORT> + 'a,
>(centers: &SquareMosaicSet<SHORT, M>)
    requires
        LONG == 2 * SHORT,
        SHORT > 0,
        centers.wf(),
        orbits_distinct(centers@),
    ensures
        crate::set::rectangle::orbits_distinct(
            spec_build_rectangles_memo::<SHORT, LONG, M, M, LeastTile, LeastTileUprightOrLeft>(
                centers,
                &LeastTile,
                centers,
                &LeastTileUprightOrLeft,
            ),
        ),
{
    let built = spec_build_rectangles_memo::<SHORT, LONG, M, M, LeastTile, LeastTileUprightOrLeft>(
        centers,
        &LeastTile,
        centers,
        &LeastTileUprightOrLeft,
    );
    assert forall|k1: int, k2: int| 0 <= k1 < k2 < 2 * built.len() implies #[trigger]
        crate::set::rectangle::orbit_member(built, k1) != #[trigger] crate::set::rectangle::orbit_member(
            built,
            k2,
        ) by {
        reveal(crate::set::rectangle::orbit_member);
        let i = k1 / 2;
        let j = k2 / 2;
        let first = RotatedRectangularMosaic {
            mosaic: &built[i],
            rotation: RectangularRotation::from_turns(k1 % 2),
        };
        let second = RotatedRectangularMosaic {
            mosaic: &built[j],
            rotation: RectangularRotation::from_turns(k2 % 2),
        };
        lemma_same_tiles_is_same_grid(&first, &second);
        if same_tiles(&first, &second) {
            if k1 % 2 == k2 % 2 {
                assert forall|x: int, y: int| 0 <= x < LONG && 0 <= y < SHORT implies #[trigger] built[i].spec_get(
                    x,
                    y,
                ) == built[j].spec_get(x, y) by {
                    if k1 % 2 == 0 {
                        assert(first.spec_get(x, y) == second.spec_get(x, y));
                    } else {
                        assert(first.spec_get(LONG - 1 - x, SHORT - 1 - y) == second.spec_get(
                            LONG - 1 - x,
                            SHORT - 1 - y,
                        ));
                    }
                }
                lemma_same_tiles_is_same_mosaic(built[i], built[j]);
                lemma_no_rectangle_is_built_twice::<SHORT, LONG, M, M, LeastTile, LeastTileUprightOrLeft>(
                    centers,
                    centers.edges().len(),
                    &LeastTile,
                    centers,
                    &LeastTileUprightOrLeft,
                    i,
                    j,
                );
            } else if k1 % 2 == 0 {
                lemma_built_rectangular_centers_hold_no_half_turns::<SHORT, LONG, M>(centers, j, i);
                assert forall|x: int, y: int| 0 <= x < LONG && 0 <= y < SHORT implies #[trigger] second.spec_get(
                    x,
                    y,
                ) == built[i].spec_get(x, y) by {
                    assert(first.spec_get(x, y) == second.spec_get(x, y));
                }
            } else {
                lemma_built_rectangular_centers_hold_no_half_turns::<SHORT, LONG, M>(centers, i, j);
                assert forall|x: int, y: int| 0 <= x < LONG && 0 <= y < SHORT implies #[trigger] first.spec_get(
                    x,
                    y,
                ) == built[j].spec_get(x, y) by {
                    assert(first.spec_get(x, y) == second.spec_get(x, y));
                }
            }
        }
    }
}

} // verus!
