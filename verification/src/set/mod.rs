use crate::edge::ArrayEdge;
use crate::mosaic::{
    rotated_edge, rotated_horizontal_edge, ArrayMosaic, RectangularMosaic,
    RotatedRectangularMosaic, RotatedSquareMosaic, SquareMosaic,
};
use crate::set::combine::{
    is_side_by_side, is_stacked, lemma_combined_rectangles, lemma_combined_squares,
    tiles_used_once,
};
use crate::set::index::RotatedIndex;
use crate::rectangular::{HorizontalSide, RectangularRotation};
use crate::set::builder::{SetBuilder, ShardBuilder};
use crate::set::filter::{
    Any, Filter, Filtering, LeastTile, LeastTileUpright, LeastTileUprightOrLeft, MemoFilter,
    Memoizer, RectangleRotated, SquareRotated, Unmemoized,
};
use crate::set::join::{fill_shard, pair_items, Combine, SideBySide, Stacked};
use crate::set::classes::{
    lemma_canonical_tile_counts, lemma_canonical_tiles_have_distinct_orbits,
};
use crate::set::rectangle::RectangularMosaicSet;
use crate::set::square::{orbits_distinct, SquareMosaicSet};
use crate::{ExteriorMask, RotatedTile, Rotation, Side, Tile};
use vstd::prelude::*;

pub mod builder;
pub mod classes;
pub mod combine;
pub mod distinct;
pub mod filter;
pub mod index;
pub mod join;
pub mod least_tile;
pub mod rectangle;
pub mod square;

verus! {

pub open spec fn spec_is_canonical_corner(rotated_tile: RotatedTile) -> bool {
    rotated_tile.spec_exterior_mask() == (ExteriorMask {
        right: false,
        top: true,
        left: true,
        bottom: false,
    })
}

pub open spec fn spec_is_canonical_edge(rotated_tile: RotatedTile) -> bool {
    rotated_tile.spec_exterior_mask() == (ExteriorMask {
        right: false,
        top: false,
        left: true,
        bottom: false,
    })
}

pub open spec fn spec_is_canonical_center(rotated_tile: RotatedTile) -> bool {
    rotated_tile.spec_exterior_mask() == ExteriorMask::spec_zero() && rotated_tile.rotation
        == Rotation::Identity
}

/// Whether the rotated tile is a corner in canonical orientation: a corner
/// shows the exterior on two neighbouring sides, and in canonical orientation
/// these are the top and the left.
#[verifier::when_used_as_spec(spec_is_canonical_corner)]
pub fn is_canonical_corner(rotated_tile: RotatedTile) -> (canonical: bool)
    ensures
        canonical == spec_is_canonical_corner(rotated_tile),
{
    rotated_tile.exterior_mask() == ExteriorMask::zero().with_top(true).with_left(true)
}

/// Whether the rotated tile is an edge in canonical orientation: an edge
/// shows the exterior on one side, and in canonical orientation this is the
/// left.
#[verifier::when_used_as_spec(spec_is_canonical_edge)]
pub fn is_canonical_edge(rotated_tile: RotatedTile) -> (canonical: bool)
    ensures
        canonical == spec_is_canonical_edge(rotated_tile),
{
    rotated_tile.exterior_mask() == ExteriorMask::zero().with_left(true)
}

/// Whether the rotated tile is a center in canonical orientation: a center
/// shows the exterior on no side, and in canonical orientation it is not
/// rotated.
#[verifier::when_used_as_spec(spec_is_canonical_center)]
pub fn is_canonical_center(rotated_tile: RotatedTile) -> (canonical: bool)
    ensures
        canonical == spec_is_canonical_center(rotated_tile),
{
    rotated_tile.exterior_mask() == ExteriorMask::zero() && rotated_tile.rotation
        == Rotation::Identity
}

/// No rotated tile is canonical in two of the three ways.
pub proof fn lemma_canonical_classes_are_disjoint(rotated_tile: RotatedTile)
    ensures
        !(is_canonical_corner(rotated_tile) && is_canonical_edge(rotated_tile)),
        !(is_canonical_corner(rotated_tile) && is_canonical_center(rotated_tile)),
        !(is_canonical_edge(rotated_tile) && is_canonical_center(rotated_tile)),
{
}

/// One of the three ways in which a rotated tile can be canonical.
#[derive(Clone, Copy, Debug, PartialEq, Eq, Structural)]
pub enum Class {
    Corner,
    Edge,
    Center,
}

/// Whether a rotated tile is canonical in the way of `class`.
pub open spec fn is_canonical(class: Class, rotated_tile: RotatedTile) -> bool {
    match class {
        Class::Corner => is_canonical_corner(rotated_tile),
        Class::Edge => is_canonical_edge(rotated_tile),
        Class::Center => is_canonical_center(rotated_tile),
    }
}

/// Whether a tile is one of the five whose place on the board is given away
/// as a clue.
pub open spec fn spec_is_clue_tile(tile: Tile) -> bool {
    tile.0 == 76 || tile.0 == 125 || tile.0 == 135 || tile.0 == 179 || tile.0 == 211
}

/// Whether a tile is one of the five whose place on the board is given away
/// as a clue.
#[verifier::when_used_as_spec(spec_is_clue_tile)]
pub fn is_clue_tile(tile: Tile) -> (clue: bool)
    ensures
        clue == spec_is_clue_tile(tile),
{
    tile.0 == 76 || tile.0 == 125 || tile.0 == 135 || tile.0 == 179 || tile.0 == 211
}

/// The rotated tile at position `rank` of the order by tile number, then
/// rotation.
pub open spec fn rotated_tile_of_rank(rank: int) -> RotatedTile {
    RotatedTile { tile: Tile((rank / 4) as u8), rotation: Rotation::from_turns(rank % 4) }
}

/// Among the first `ranks` rotated tiles, those canonical in the way of
/// `class`, in order; without the clue tiles if `without_clues`.
pub open spec fn canonical_tiles(class: Class, without_clues: bool, ranks: nat) -> Seq<RotatedTile>
    decreases ranks,
{
    if ranks == 0 {
        Seq::empty()
    } else {
        let earlier = canonical_tiles(class, without_clues, (ranks - 1) as nat);
        let next = rotated_tile_of_rank(ranks - 1);
        if is_canonical(class, next) && !(without_clues && is_clue_tile(next.tile)) {
            earlier.push(next)
        } else {
            earlier
        }
    }
}

/// The rotated tiles of a list of mosaics of one cell.
pub open spec fn single_tiles(mosaics: Seq<ArrayMosaic<1, 1>>) -> Seq<RotatedTile> {
    Seq::new(mosaics.len(), |i: int| mosaics[i].spec_get(0, 0))
}

/// The mosaic of one cell that holds `rotated_tile`.
pub fn single(rotated_tile: RotatedTile) -> (mosaic: ArrayMosaic<1, 1>)
    ensures
        mosaic.spec_get(0, 0) == rotated_tile,
{
    ArrayMosaic { tiles: [[rotated_tile]] }
}

/// The set that holds the mosaic of one cell with `rotated_tile`, and no
/// other.
fn singleton(rotated_tile: RotatedTile) -> (set: SquareMosaicSet<1, ArrayMosaic<1, 1>>)
    ensures
        set.wf(),
        single_tiles(set@) == seq![rotated_tile],
{
    let mut set = SquareMosaicSet::new();
    set.insert(single(rotated_tile));
    assert(single_tiles(set@) =~= seq![rotated_tile]);
    set
}

/// Sorts the rotated tiles, without the clue tiles if `without_clues`, into
/// the sets of the canonical corners, edges and centers.
fn build_classes(without_clues: bool) -> (sets: (
    SquareMosaicSet<1, ArrayMosaic<1, 1>>,
    SquareMosaicSet<1, ArrayMosaic<1, 1>>,
    SquareMosaicSet<1, ArrayMosaic<1, 1>>,
))
    ensures
        sets.0.wf(),
        sets.1.wf(),
        sets.2.wf(),
        single_tiles(sets.0@) == canonical_tiles(Class::Corner, without_clues, 1024),
        single_tiles(sets.1@) == canonical_tiles(Class::Edge, without_clues, 1024),
        single_tiles(sets.2@) == canonical_tiles(Class::Center, without_clues, 1024),
{
    let mut corners: SquareMosaicSet<1, ArrayMosaic<1, 1>> = SquareMosaicSet::new();
    let mut edges: SquareMosaicSet<1, ArrayMosaic<1, 1>> = SquareMosaicSet::new();
    let mut centers: SquareMosaicSet<1, ArrayMosaic<1, 1>> = SquareMosaicSet::new();
    proof {
        assert(single_tiles(corners@) =~= canonical_tiles(Class::Corner, without_clues, 0));
        assert(single_tiles(edges@) =~= canonical_tiles(Class::Edge, without_clues, 0));
        assert(single_tiles(centers@) =~= canonical_tiles(Class::Center, without_clues, 0));
    }
    let mut rank: u16 = 0;
    while rank < 1024
        invariant
            rank <= 1024,
            corners.wf(),
            edges.wf(),
            centers.wf(),
            single_tiles(corners@) == canonical_tiles(Class::Corner, without_clues, rank as nat),
            single_tiles(edges@) == canonical_tiles(Class::Edge, without_clues, rank as nat),
            single_tiles(centers@) == canonical_tiles(Class::Center, without_clues, rank as nat),
        decreases 1024 - rank,
    {
        let tile = Tile::from_primitive((rank / 4) as u8);
        let rotation = Rotation::new_masked((rank % 4) as u8);
        let rotated_tile = RotatedTile { tile, rotation };
        assert(rotated_tile == rotated_tile_of_rank(rank as int));
        proof {
            lemma_canonical_classes_are_disjoint(rotated_tile);
        }
        if !(without_clues && is_clue_tile(tile)) {
            let ghost corners_before = corners@;
            let ghost edges_before = edges@;
            let ghost centers_before = centers@;
            if is_canonical_corner(rotated_tile) {
                corners.insert(single(rotated_tile));
                assert(single_tiles(corners@) =~= single_tiles(corners_before).push(rotated_tile));
            } else if is_canonical_edge(rotated_tile) {
                edges.insert(single(rotated_tile));
                assert(single_tiles(edges@) =~= single_tiles(edges_before).push(rotated_tile));
            } else if is_canonical_center(rotated_tile) {
                centers.insert(single(rotated_tile));
                assert(single_tiles(centers@) =~= single_tiles(centers_before).push(rotated_tile));
            }
        }
        rank = rank + 1;
    }
    (corners, edges, centers)
}

/// The sets of mosaics of one cell that every larger mosaic is made of: the
/// canonical corners, the canonical edges and the canonical centers, each by
/// tile number.
pub fn build_1x1_sets() -> (sets: (
    SquareMosaicSet<1, ArrayMosaic<1, 1>>,
    SquareMosaicSet<1, ArrayMosaic<1, 1>>,
    SquareMosaicSet<1, ArrayMosaic<1, 1>>,
))
    ensures
        sets.0.wf(),
        sets.1.wf(),
        sets.2.wf(),
        single_tiles(sets.0@) == canonical_tiles(Class::Corner, false, 1024),
        single_tiles(sets.1@) == canonical_tiles(Class::Edge, false, 1024),
        single_tiles(sets.2@) == canonical_tiles(Class::Center, false, 1024),
        sets.0@.len() == 4,
        sets.1@.len() == 56,
        sets.2@.len() == 196,
        orbits_distinct(sets.0@),
        orbits_distinct(sets.1@),
        orbits_distinct(sets.2@),
{
    let sets = build_classes(false);
    proof {
        lemma_canonical_tile_counts();
        lemma_canonical_tiles_have_distinct_orbits(Class::Corner, false, sets.0@);
        lemma_canonical_tiles_have_distinct_orbits(Class::Edge, false, sets.1@);
        lemma_canonical_tiles_have_distinct_orbits(Class::Center, false, sets.2@);
    }
    sets
}

/// The sets of mosaics of one cell with the clue tiles set apart: the
/// canonical corners, edges and centers without the clue tiles, and then for
/// each of the five clue tiles the set of that tile alone, in the rotation in
/// which it lies on the board.
pub fn build_1x1_sets_with_clues() -> (sets: (
    SquareMosaicSet<1, ArrayMosaic<1, 1>>,
    SquareMosaicSet<1, ArrayMosaic<1, 1>>,
    SquareMosaicSet<1, ArrayMosaic<1, 1>>,
    SquareMosaicSet<1, ArrayMosaic<1, 1>>,
    SquareMosaicSet<1, ArrayMosaic<1, 1>>,
    SquareMosaicSet<1, ArrayMosaic<1, 1>>,
    SquareMosaicSet<1, ArrayMosaic<1, 1>>,
    SquareMosaicSet<1, ArrayMosaic<1, 1>>,
))
    ensures
        sets.0.wf(),
        sets.1.wf(),
        sets.2.wf(),
        sets.3.wf(),
        sets.4.wf(),
        sets.5.wf(),
        sets.6.wf(),
        sets.7.wf(),
        single_tiles(sets.0@) == canonical_tiles(Class::Corner, true, 1024),
        single_tiles(sets.1@) == canonical_tiles(Class::Edge, true, 1024),
        single_tiles(sets.2@) == canonical_tiles(Class::Center, true, 1024),
        single_tiles(sets.3@) == seq![RotatedTile { tile: Tile(76), rotation: Rotation::Identity }],
        single_tiles(sets.4@) == seq![
            RotatedTile { tile: Tile(179), rotation: Rotation::QuarterTurnLeft },
        ],
        single_tiles(sets.5@) == seq![RotatedTile { tile: Tile(135), rotation: Rotation::Identity }],
        single_tiles(sets.6@) == seq![RotatedTile { tile: Tile(211), rotation: Rotation::HalfTurn }],
        single_tiles(sets.7@) == seq![
            RotatedTile { tile: Tile(125), rotation: Rotation::QuarterTurnRight },
        ],
        sets.0@.len() == 4,
        sets.1@.len() == 56,
        sets.2@.len() == 191,
        sets.3@.len() == 1,
        sets.4@.len() == 1,
        sets.5@.len() == 1,
        sets.6@.len() == 1,
        sets.7@.len() == 1,
        orbits_distinct(sets.0@),
        orbits_distinct(sets.1@),
        orbits_distinct(sets.2@),
{
    let c3 = singleton(RotatedTile { tile: Tile(76), rotation: Rotation::Identity });
    let c14 = singleton(RotatedTile { tile: Tile(179), rotation: Rotation::QuarterTurnLeft });
    let i8 = singleton(RotatedTile { tile: Tile(135), rotation: Rotation::Identity });
    let n3 = singleton(RotatedTile { tile: Tile(211), rotation: Rotation::HalfTurn });
    let n14 = singleton(RotatedTile { tile: Tile(125), rotation: Rotation::QuarterTurnRight });
    let (corners, edges, centers) = build_classes(true);
    proof {
        lemma_canonical_tile_counts();
        lemma_canonical_tiles_have_distinct_orbits(Class::Corner, true, corners@);
        lemma_canonical_tiles_have_distinct_orbits(Class::Edge, true, edges@);
        lemma_canonical_tiles_have_distinct_orbits(Class::Center, true, centers@);
        assert(single_tiles(c3@).len() == 1);
        assert(single_tiles(c14@).len() == 1);
        assert(single_tiles(i8@).len() == 1);
        assert(single_tiles(n3@).len() == 1);
        assert(single_tiles(n14@).len() == 1);
    }
    (corners, edges, centers, c3, c14, i8, n3, n14)
}

/// What the first halves filed under the edge at position `j` of `a_set`
/// give with the second halves of `b_set` that fit them: the rectangles
/// made of a first half that shows the edge on its right and a
/// second half that shows it, read the other way, on its left.
pub open spec fn rectangles_from_bucket<
    'a,
    const SHORT: usize,
    const LONG: usize,
    MosaicA: SquareMosaic<SHORT> + 'a,
    MosaicB: SquareMosaic<SHORT> + 'a,
    MA: Memoizer<RotatedSquareMosaic<'a, SHORT, MosaicA>>,
    FB: MemoFilter<MA::Memo, RotatedSquareMosaic<'a, SHORT, MosaicB>>,
>(
    a_set: &SquareMosaicSet<SHORT, MosaicA>,
    j: int,
    a_memo: &MA,
    b_set: &SquareMosaicSet<SHORT, MosaicB>,
    b_filter: &FB,
) -> Seq<ArrayMosaic<LONG, SHORT>> {
    pair_items(
        crate::set::square::spec_views::<SHORT, MosaicA>(
            a_set@,
            crate::set::square::spec_query(a_set@, Side::Right, a_set.edges()[j]@),
        ),
        crate::set::square::spec_views::<SHORT, MosaicB>(
            b_set@,
            crate::set::square::spec_query(b_set@, Side::Left, a_set.edges()[j]@.reverse()),
        ),
        a_memo,
        b_filter,
        &SideBySide::<SHORT, LONG>,
    )
}

/// What the first halves filed under the first `count` edges of `a_set` give
/// with the second halves of `b_set` that fit them, edge by edge.
pub open spec fn rectangles_from_buckets<
    'a,
    const SHORT: usize,
    const LONG: usize,
    MosaicA: SquareMosaic<SHORT> + 'a,
    MosaicB: SquareMosaic<SHORT> + 'a,
    MA: Memoizer<RotatedSquareMosaic<'a, SHORT, MosaicA>>,
    FB: MemoFilter<MA::Memo, RotatedSquareMosaic<'a, SHORT, MosaicB>>,
>(
    a_set: &SquareMosaicSet<SHORT, MosaicA>,
    count: nat,
    a_memo: &MA,
    b_set: &SquareMosaicSet<SHORT, MosaicB>,
    b_filter: &FB,
) -> Seq<ArrayMosaic<LONG, SHORT>>
    decreases count,
{
    if count == 0 {
        Seq::empty()
    } else {
        rectangles_from_buckets::<SHORT, LONG, MosaicA, MosaicB, MA, FB>(
            a_set,
            (count - 1) as nat,
            a_memo,
            b_set,
            b_filter,
        ) + rectangles_from_bucket::<SHORT, LONG, MosaicA, MosaicB, MA, FB>(
            a_set,
            count - 1,
            a_memo,
            b_set,
            b_filter,
        )
    }
}

/// The rectangles made of a mosaic of `a_set` to the left and a mosaic of
/// `b_set` to the right, each in a rotation in which the two show the same
/// colors where they touch, the first taken by `a_memo` and the second by
/// `b_filter`, no tile lying in both: by the edge where they touch, then by
/// the slot and rotation of the first, then of the second.
pub open spec fn spec_build_rectangles_memo<
    'a,
    const SHORT: usize,
    const LONG: usize,
    MosaicA: SquareMosaic<SHORT> + 'a,
    MosaicB: SquareMosaic<SHORT> + 'a,
    MA: Memoizer<RotatedSquareMosaic<'a, SHORT, MosaicA>>,
    FB: MemoFilter<MA::Memo, RotatedSquareMosaic<'a, SHORT, MosaicB>>,
>(
    a_set: &SquareMosaicSet<SHORT, MosaicA>,
    a_memo: &MA,
    b_set: &SquareMosaicSet<SHORT, MosaicB>,
    b_filter: &FB,
) -> Seq<ArrayMosaic<LONG, SHORT>> {
    rectangles_from_buckets::<SHORT, LONG, MosaicA, MosaicB, MA, FB>(
        a_set,
        a_set.edges().len(),
        a_memo,
        b_set,
        b_filter,
    )
}

/// Puts into `shard` what the first halves filed under the edge at position
/// `j` of `a_set` give with the second halves of `b_set` that fit them. This
/// is one unit of the work of `build_rectangles_memo`.
pub fn fill_rectangle_shard<
    'a,
    const SHORT: usize,
    const LONG: usize,
    S: ShardBuilder<Item = ArrayMosaic<LONG, SHORT>>,
    MosaicA: SquareMosaic<SHORT> + 'a,
    MosaicB: SquareMosaic<SHORT> + 'a,
    MA: Memoizer<RotatedSquareMosaic<'a, SHORT, MosaicA>>,
    FB: MemoFilter<MA::Memo, RotatedSquareMosaic<'a, SHORT, MosaicB>>,
>(
    shard: &mut S,
    a_set: &'a SquareMosaicSet<SHORT, MosaicA>,
    j: usize,
    a_memo: &MA,
    b_set: &'a SquareMosaicSet<SHORT, MosaicB>,
    b_filter: &FB,
)
    requires
        LONG == 2 * SHORT,
        a_set.wf(),
        b_set.wf(),
        j < a_set.edges().len(),
        exists|items: Seq<ArrayMosaic<LONG, SHORT>>| old(shard).holds(items),
    ensures
        forall|items: Seq<ArrayMosaic<LONG, SHORT>>| #[trigger]
            old(shard).holds(items) ==> final(shard).holds(
                items + rectangles_from_bucket::<SHORT, LONG, MosaicA, MosaicB, MA, FB>(
                    a_set,
                    j as int,
                    a_memo,
                    b_set,
                    b_filter,
                ),
            ),
{
    let a_shared_edge = a_set.bucket_edge(j);
    let b_shared_edge = a_shared_edge.reversed();
    let firsts = a_set.query(Side::Right, &a_shared_edge);
    let seconds = b_set.query(Side::Left, &b_shared_edge);
    proof {
        crate::set::square::lemma_views_match(
            firsts@,
            a_set@,
            crate::set::square::spec_query(a_set@, Side::Right, a_shared_edge@),
        );
        crate::set::square::lemma_views_match(
            seconds@,
            b_set@,
            crate::set::square::spec_query(b_set@, Side::Left, b_shared_edge@),
        );
    }
    fill_shard(shard, &firsts, &seconds, a_memo, b_filter, &SideBySide::<SHORT, LONG>);
}

/// Builds the rectangles made of a mosaic of `a_set` to the left and a mosaic
/// of `b_set` to the right: see `spec_build_rectangles_memo`. The work is
/// done edge by edge of `a_set`, each edge with a shard of its own.
pub fn build_rectangles_memo<
    'a,
    const SHORT: usize,
    const LONG: usize,
    B: SetBuilder<Item = ArrayMosaic<LONG, SHORT>>,
    MosaicA: SquareMosaic<SHORT> + 'a,
    MosaicB: SquareMosaic<SHORT> + 'a,
    MA: Memoizer<RotatedSquareMosaic<'a, SHORT, MosaicA>>,
    FB: MemoFilter<MA::Memo, RotatedSquareMosaic<'a, SHORT, MosaicB>>,
>(
    set_builder: B,
    a_set: &'a SquareMosaicSet<SHORT, MosaicA>,
    a_memo: MA,
    b_set: &'a SquareMosaicSet<SHORT, MosaicB>,
    b_filter: FB,
) -> (result: B::Result)
    requires
        LONG == 2 * SHORT,
        a_set.wf(),
        b_set.wf(),
        exists|items: Seq<ArrayMosaic<LONG, SHORT>>| set_builder.holds(items),
    ensures
        forall|items: Seq<ArrayMosaic<LONG, SHORT>>| #[trigger]
            set_builder.holds(items) ==> B::result_holds(
                &result,
                items + spec_build_rectangles_memo::<SHORT, LONG, MosaicA, MosaicB, MA, FB>(
                    a_set,
                    &a_memo,
                    b_set,
                    &b_filter,
                ),
            ),
{
    let mut set_builder = set_builder;
    let ghost before = set_builder;
    let ghost base = choose|items: Seq<ArrayMosaic<LONG, SHORT>>| set_builder.holds(items);
    let count = a_set.bucket_count();
    proof {
        assert forall|items: Seq<ArrayMosaic<LONG, SHORT>>| #[trigger] before.holds(items) implies set_builder.holds(
            items + rectangles_from_buckets::<SHORT, LONG, MosaicA, MosaicB, MA, FB>(
                a_set,
                0,
                &a_memo,
                b_set,
                &b_filter,
            ),
        ) by {
            assert(items + Seq::<ArrayMosaic<LONG, SHORT>>::empty() =~= items);
        }
    }
    let mut j: usize = 0;
    while j < count
        invariant
            j <= count,
            count == a_set.edges().len(),
            LONG == 2 * SHORT,
            a_set.wf(),
            b_set.wf(),
            before.holds(base),
            forall|items: Seq<ArrayMosaic<LONG, SHORT>>| #[trigger]
                before.holds(items) ==> set_builder.holds(
                    items + rectangles_from_buckets::<SHORT, LONG, MosaicA, MosaicB, MA, FB>(
                        a_set,
                        j as nat,
                        &a_memo,
                        b_set,
                        &b_filter,
                    ),
                ),
        decreases count - j,
    {
        let ghost done = rectangles_from_buckets::<SHORT, LONG, MosaicA, MosaicB, MA, FB>(
            a_set,
            j as nat,
            &a_memo,
            b_set,
            &b_filter,
        );
        let ghost bucket = rectangles_from_bucket::<SHORT, LONG, MosaicA, MosaicB, MA, FB>(
            a_set,
            j as int,
            &a_memo,
            b_set,
            &b_filter,
        );
        let ghost earlier = set_builder;
        proof {
            assert(earlier.holds(base + done));
        }
        let mut shard = set_builder.new_shard();
        let ghost handed_out = set_builder;
        fill_rectangle_shard::<SHORT, LONG, B::Shard, MosaicA, MosaicB, MA, FB>(
            &mut shard,
            a_set,
            j,
            &a_memo,
            b_set,
            &b_filter,
        );
        proof {
            assert(shard.holds(Seq::<ArrayMosaic<LONG, SHORT>>::empty() + bucket));
            assert(Seq::<ArrayMosaic<LONG, SHORT>>::empty() + bucket =~= bucket);
        }
        let partial = shard.finish();
        proof {
            assert(B::Shard::partial_holds(&partial, bucket));
            assert(handed_out.holds(base + done));
        }
        set_builder.merge(partial);
        proof {
            assert forall|items: Seq<ArrayMosaic<LONG, SHORT>>| #[trigger] before.holds(items) implies set_builder.holds(
                items + (done + bucket),
            ) by {
                assert(earlier.holds(items + done));
                assert(handed_out.holds(items + done));
                assert((items + done) + bucket =~= items + (done + bucket));
            }
        }
        j = j + 1;
    }
    proof {
        assert(set_builder.holds(base + rectangles_from_buckets::<SHORT, LONG, MosaicA, MosaicB, MA, FB>(
            a_set,
            count as nat,
            &a_memo,
            b_set,
            &b_filter,
        )));
    }
    let ghost full = set_builder;
    let result = set_builder.finish();
    proof {
        assert forall|items: Seq<ArrayMosaic<LONG, SHORT>>| #[trigger] before.holds(items) implies B::result_holds(
            &result,
            items + spec_build_rectangles_memo::<SHORT, LONG, MosaicA, MosaicB, MA, FB>(
                a_set,
                &a_memo,
                b_set,
                &b_filter,
            ),
        ) by {
            assert(full.holds(items + rectangles_from_buckets::<SHORT, LONG, MosaicA, MosaicB, MA, FB>(
                a_set,
                count as nat,
                &a_memo,
                b_set,
                &b_filter,
            )));
        }
    }
    result
}

/// Builds the rectangles made of a mosaic of `a_set` to the left that
/// `a_filter` takes and a mosaic of `b_set` to the right that `b_filter`
/// takes: see `spec_build_rectangles_memo`.
pub fn build_rectangles<
    'a,
    const SHORT: usize,
    const LONG: usize,
    B: SetBuilder<Item = ArrayMosaic<LONG, SHORT>>,
    MosaicA: SquareMosaic<SHORT> + 'a,
    MosaicB: SquareMosaic<SHORT> + 'a,
    FA: Filter<RotatedSquareMosaic<'a, SHORT, MosaicA>>,
    FB: Filter<RotatedSquareMosaic<'a, SHORT, MosaicB>>,
>(
    set_builder: B,
    a_set: &'a SquareMosaicSet<SHORT, MosaicA>,
    a_filter: FA,
    b_set: &'a SquareMosaicSet<SHORT, MosaicB>,
    b_filter: FB,
) -> (result: B::Result)
    requires
        LONG == 2 * SHORT,
        a_set.wf(),
        b_set.wf(),
        exists|items: Seq<ArrayMosaic<LONG, SHORT>>| set_builder.holds(items),
    ensures
        forall|items: Seq<ArrayMosaic<LONG, SHORT>>| #[trigger]
            set_builder.holds(items) ==> B::result_holds(
                &result,
                items + spec_build_rectangles_memo::<
                    SHORT,
                    LONG,
                    MosaicA,
                    MosaicB,
                    Filtering<FA>,
                    Unmemoized<FB>,
                >(a_set, &Filtering(a_filter), b_set, &Unmemoized(b_filter)),
            ),
{
    build_rectangles_memo::<SHORT, LONG, B, MosaicA, MosaicB, Filtering<FA>, Unmemoized<FB>>(
        set_builder,
        a_set,
        Filtering(a_filter),
        b_set,
        Unmemoized(b_filter),
    )
}

/// `item` is made of the mosaic in the slot of `first` of `a_mosaics`, seen
/// after the rotation of `first`, to the left, and of the mosaic in the slot of
/// `second` of `b_mosaics`, to the right: the two show the same colors where
/// they touch, the first is taken by `a_memo` and the second by `b_filter`
/// with the note made of the first, and no tile lies in two cells of `item`.
pub open spec fn is_rectangle_of<
    'a,
    const SHORT: usize,
    const LONG: usize,
    MosaicA: SquareMosaic<SHORT> + 'a,
    MosaicB: SquareMosaic<SHORT> + 'a,
    MA: Memoizer<RotatedSquareMosaic<'a, SHORT, MosaicA>>,
    FB: MemoFilter<MA::Memo, RotatedSquareMosaic<'a, SHORT, MosaicB>>,
>(
    item: &ArrayMosaic<LONG, SHORT>,
    a_mosaics: Seq<MosaicA>,
    first: RotatedIndex<Rotation>,
    a_memo: &MA,
    b_mosaics: Seq<MosaicB>,
    second: RotatedIndex<Rotation>,
    b_filter: &FB,
) -> bool {
    let a = RotatedSquareMosaic::<SHORT, MosaicA> {
        mosaic: &a_mosaics[first.index as int],
        rotation: first.rotation,
    };
    let b = RotatedSquareMosaic::<SHORT, MosaicB> {
        mosaic: &b_mosaics[second.index as int],
        rotation: second.rotation,
    };
    &&& first.index < a_mosaics.len()
    &&& second.index < b_mosaics.len()
    &&& rotated_edge(b.mosaic, second.rotation, Side::Left) == rotated_edge(
        a.mosaic,
        first.rotation,
        Side::Right,
    ).reverse()
    &&& a_memo.spec_memo(a) is Some
    &&& b_filter.spec_accepts(&a_memo.spec_memo(a)->0, b)
    &&& is_side_by_side(item, &a, &b)
    &&& tiles_used_once(item)
}

proof fn lemma_rectangles_come_from_a_bucket<
    'a,
    const SHORT: usize,
    const LONG: usize,
    MosaicA: SquareMosaic<SHORT> + 'a,
    MosaicB: SquareMosaic<SHORT> + 'a,
    MA: Memoizer<RotatedSquareMosaic<'a, SHORT, MosaicA>>,
    FB: MemoFilter<MA::Memo, RotatedSquareMosaic<'a, SHORT, MosaicB>>,
>(
    a_set: &SquareMosaicSet<SHORT, MosaicA>,
    count: nat,
    a_memo: &MA,
    b_set: &SquareMosaicSet<SHORT, MosaicB>,
    b_filter: &FB,
    i: int,
) -> (place: (int, int))
    requires
        0 <= i < rectangles_from_buckets::<SHORT, LONG, MosaicA, MosaicB, MA, FB>(
            a_set,
            count,
            a_memo,
            b_set,
            b_filter,
        ).len(),
    ensures
        0 <= place.0 < count,
        0 <= place.1 < rectangles_from_bucket::<SHORT, LONG, MosaicA, MosaicB, MA, FB>(
            a_set,
            place.0,
            a_memo,
            b_set,
            b_filter,
        ).len(),
        rectangles_from_bucket::<SHORT, LONG, MosaicA, MosaicB, MA, FB>(
            a_set,
            place.0,
            a_memo,
            b_set,
            b_filter,
        )[place.1] == rectangles_from_buckets::<SHORT, LONG, MosaicA, MosaicB, MA, FB>(
            a_set,
            count,
            a_memo,
            b_set,
            b_filter,
        )[i],
    decreases count,
{
    let earlier = rectangles_from_buckets::<SHORT, LONG, MosaicA, MosaicB, MA, FB>(
        a_set,
        (count - 1) as nat,
        a_memo,
        b_set,
        b_filter,
    );
    if i < earlier.len() {
        lemma_rectangles_come_from_a_bucket::<SHORT, LONG, MosaicA, MosaicB, MA, FB>(
            a_set,
            (count - 1) as nat,
            a_memo,
            b_set,
            b_filter,
            i,
        )
    } else {
        (count - 1, i - earlier.len())
    }
}

/// Every mosaic that `build_rectangles_memo` builds is made of a mosaic of `a_set`
/// and a mosaic of `b_set` that show the same colors where they touch and
/// that the two rules take, and no tile lies in two of its cells.
pub proof fn lemma_built_rectangles_are_sound<
    'a,
    const SHORT: usize,
    const LONG: usize,
    MosaicA: SquareMosaic<SHORT> + 'a,
    MosaicB: SquareMosaic<SHORT> + 'a,
    MA: Memoizer<RotatedSquareMosaic<'a, SHORT, MosaicA>>,
    FB: MemoFilter<MA::Memo, RotatedSquareMosaic<'a, SHORT, MosaicB>>,
>(
    a_set: &SquareMosaicSet<SHORT, MosaicA>,
    a_memo: &MA,
    b_set: &SquareMosaicSet<SHORT, MosaicB>,
    b_filter: &FB,
    i: int,
)
    requires
        LONG == 2 * SHORT,
        a_set.wf(),
        b_set.wf(),
        0 <= i < spec_build_rectangles_memo::<SHORT, LONG, MosaicA, MosaicB, MA, FB>(
            a_set,
            a_memo,
            b_set,
            b_filter,
        ).len(),
    ensures
        exists|first: RotatedIndex<Rotation>, second: RotatedIndex<Rotation>| #[trigger]
            is_rectangle_of::<SHORT, LONG, MosaicA, MosaicB, MA, FB>(
                &spec_build_rectangles_memo::<SHORT, LONG, MosaicA, MosaicB, MA, FB>(
                    a_set,
                    a_memo,
                    b_set,
                    b_filter,
                )[i],
                a_set@,
                first,
                a_memo,
                b_set@,
                second,
                b_filter,
            ),
{
    let item = spec_build_rectangles_memo::<SHORT, LONG, MosaicA, MosaicB, MA, FB>(
        a_set,
        a_memo,
        b_set,
        b_filter,
    )[i];
    let (j, k) = lemma_rectangles_come_from_a_bucket::<SHORT, LONG, MosaicA, MosaicB, MA, FB>(
        a_set,
        a_set.edges().len(),
        a_memo,
        b_set,
        b_filter,
        i,
    );
    let key = a_set.edges()[j]@;
    let a_slots = crate::set::square::spec_query(a_set@, Side::Right, key);
    let b_slots = crate::set::square::spec_query(b_set@, Side::Left, key.reverse());
    let firsts = crate::set::square::spec_views::<SHORT, MosaicA>(a_set@, a_slots);
    let seconds = crate::set::square::spec_views::<SHORT, MosaicB>(b_set@, b_slots);
    let combiner = SideBySide::<SHORT, LONG>;
    crate::set::join::lemma_pair_items_are_combined(firsts, seconds, a_memo, b_filter, &combiner, k);
    let (p, q) = choose|p: int, q: int|
        0 <= p < firsts.len() && 0 <= q < seconds.len() && a_memo.spec_memo(firsts[p]) is Some
            && b_filter.spec_accepts(&a_memo.spec_memo(firsts[p])->0, seconds[q])
            && #[trigger] combiner.spec_combine(firsts[p], seconds[q]) == Some(item);
    a_set.lemma_len_fits();
    b_set.lemma_len_fits();
    crate::set::square::lemma_query_is_sound(a_set@, Side::Right, key, p);
    crate::set::square::lemma_query_is_sound(b_set@, Side::Left, key.reverse(), q);
    lemma_combined_squares::<SHORT, LONG, RotatedSquareMosaic<SHORT, MosaicA>, RotatedSquareMosaic<SHORT, MosaicB>>(
        &firsts[p],
        &seconds[q],
    );
    assert(is_rectangle_of::<SHORT, LONG, MosaicA, MosaicB, MA, FB>(
        &item,
        a_set@,
        a_slots[p],
        a_memo,
        b_set@,
        b_slots[q],
        b_filter,
    ));
}

/// What the first halves filed under the edge at position `j` of `a_set`
/// give with the second halves of `b_set` that fit them: the squares
/// made of a first half that shows the edge at its bottom and a
/// second half that shows it, read the other way, at its top.
pub open spec fn squares_from_bucket<
    'a,
    const SHORT: usize,
    const LONG: usize,
    MosaicA: RectangularMosaic<LONG, SHORT> + 'a,
    MosaicB: RectangularMosaic<LONG, SHORT> + 'a,
    MA: Memoizer<RotatedRectangularMosaic<'a, LONG, SHORT, MosaicA>>,
    FB: MemoFilter<MA::Memo, RotatedRectangularMosaic<'a, LONG, SHORT, MosaicB>>,
>(
    a_set: &RectangularMosaicSet<LONG, SHORT, MosaicA>,
    j: int,
    a_memo: &MA,
    b_set: &RectangularMosaicSet<LONG, SHORT, MosaicB>,
    b_filter: &FB,
) -> Seq<ArrayMosaic<LONG, LONG>> {
    pair_items(
        crate::set::rectangle::spec_views::<LONG, SHORT, MosaicA>(
            a_set@,
            crate::set::rectangle::spec_query_horizontal(a_set@, HorizontalSide::Bottom, a_set.horizontal_edges()[j]@),
        ),
        crate::set::rectangle::spec_views::<LONG, SHORT, MosaicB>(
            b_set@,
            crate::set::rectangle::spec_query_horizontal(b_set@, HorizontalSide::Top, a_set.horizontal_edges()[j]@.reverse()),
        ),
        a_memo,
        b_filter,
        &Stacked::<SHORT, LONG>,
    )
}

/// What the first halves filed under the first `count` edges of `a_set` give
/// with the second halves of `b_set` that fit them, edge by edge.
pub open spec fn squares_from_buckets<
    'a,
    const SHORT: usize,
    const LONG: usize,
    MosaicA: RectangularMosaic<LONG, SHORT> + 'a,
    MosaicB: RectangularMosaic<LONG, SHORT> + 'a,
    MA: Memoizer<RotatedRectangularMosaic<'a, LONG, SHORT, MosaicA>>,
    FB: MemoFilter<MA::Memo, RotatedRectangularMosaic<'a, LONG, SHORT, MosaicB>>,
>(
    a_set: &RectangularMosaicSet<LONG, SHORT, MosaicA>,
    count: nat,
    a_memo: &MA,
    b_set: &RectangularMosaicSet<LONG, SHORT, MosaicB>,
    b_filter: &FB,
) -> Seq<ArrayMosaic<LONG, LONG>>
    decreases count,
{
    if count == 0 {
        Seq::empty()
    } else {
        squares_from_buckets::<SHORT, LONG, MosaicA, MosaicB, MA, FB>(
            a_set,
            (count - 1) as nat,
            a_memo,
            b_set,
            b_filter,
        ) + squares_from_bucket::<SHORT, LONG, MosaicA, MosaicB, MA, FB>(
            a_set,
            count - 1,
            a_memo,
            b_set,
            b_filter,
        )
    }
}

/// The squares made of a mosaic of `a_set` on top and a mosaic of
/// `b_set` below, each in a rotation in which the two show the same
/// colors where they touch, the first taken by `a_memo` and the second by
/// `b_filter`, no tile lying in both: by the edge where they touch, then by
/// the slot and rotation of the first, then of the second.
pub open spec fn spec_build_squares_memo<
    'a,
    const SHORT: usize,
    const LONG: usize,
    MosaicA: RectangularMosaic<LONG, SHORT> + 'a,
    MosaicB: RectangularMosaic<LONG, SHORT> + 'a,
    MA: Memoizer<RotatedRectangularMosaic<'a, LONG, SHORT, MosaicA>>,
    FB: MemoFilter<MA::Memo, RotatedRectangularMosaic<'a, LONG, SHORT, MosaicB>>,
>(
    a_set: &RectangularMosaicSet<LONG, SHORT, MosaicA>,
    a_memo: &MA,
    b_set: &RectangularMosaicSet<LONG, SHORT, MosaicB>,
    b_filter: &FB,
) -> Seq<ArrayMosaic<LONG, LONG>> {
    squares_from_buckets::<SHORT, LONG, MosaicA, MosaicB, MA, FB>(
        a_set,
        a_set.horizontal_edges().len(),
        a_memo,
        b_set,
        b_filter,
    )
}

/// Puts into `shard` what the first halves filed under the edge at position
/// `j` of `a_set` give with the second halves of `b_set` that fit them. This
/// is one unit of the work of `build_squares_memo`.
pub fn fill_square_shard<
    'a,
    const SHORT: usize,
    const LONG: usize,
    S: ShardBuilder<Item = ArrayMosaic<LONG, LONG>>,
    MosaicA: RectangularMosaic<LONG, SHORT> + 'a,
    MosaicB: RectangularMosaic<LONG, SHORT> + 'a,
    MA: Memoizer<RotatedRectangularMosaic<'a, LONG, SHORT, MosaicA>>,
    FB: MemoFilter<MA::Memo, RotatedRectangularMosaic<'a, LONG, SHORT, MosaicB>>,
>(
    shard: &mut S,
    a_set: &'a RectangularMosaicSet<LONG, SHORT, MosaicA>,
    j: usize,
    a_memo: &MA,
    b_set: &'a RectangularMosaicSet<LONG, SHORT, MosaicB>,
    b_filter: &FB,
)
    requires
        LONG == 2 * SHORT,
        a_set.wf(),
        b_set.wf(),
        j < a_set.horizontal_edges().len(),
        exists|items: Seq<ArrayMosaic<LONG, LONG>>| old(shard).holds(items),
    ensures
        forall|items: Seq<ArrayMosaic<LONG, LONG>>| #[trigger]
            old(shard).holds(items) ==> final(shard).holds(
                items + squares_from_bucket::<SHORT, LONG, MosaicA, MosaicB, MA, FB>(
                    a_set,
                    j as int,
                    a_memo,
                    b_set,
                    b_filter,
                ),
            ),
{
    let a_shared_edge = a_set.horizontal_bucket_edge(j);
    let b_shared_edge = a_shared_edge.reversed();
    let firsts = a_set.query_horizontal(HorizontalSide::Bottom, &a_shared_edge);
    let seconds = b_set.query_horizontal(HorizontalSide::Top, &b_shared_edge);
    proof {
        crate::set::rectangle::lemma_views_match(
            firsts@,
            a_set@,
            crate::set::rectangle::spec_query_horizontal(a_set@, HorizontalSide::Bottom, a_shared_edge@),
        );
        crate::set::rectangle::lemma_views_match(
            seconds@,
            b_set@,
            crate::set::rectangle::spec_query_horizontal(b_set@, HorizontalSide::Top, b_shared_edge@),
        );
    }
    fill_shard(shard, &firsts, &seconds, a_memo, b_filter, &Stacked::<SHORT, LONG>);
}

/// Builds the squares made of a mosaic of `a_set` on top and a mosaic
/// of `b_set` below: see `spec_build_squares_memo`. The work is
/// done edge by edge of `a_set`, each edge with a shard of its own.
pub fn build_squares_memo<
    'a,
    const SHORT: usize,
    const LONG: usize,
    B: SetBuilder<Item = ArrayMosaic<LONG, LONG>>,
    MosaicA: RectangularMosaic<LONG, SHORT> + 'a,
    MosaicB: RectangularMosaic<LONG, SHORT> + 'a,
    MA: Memoizer<RotatedRectangularMosaic<'a, LONG, SHORT, MosaicA>>,
    FB: MemoFilter<MA::Memo, RotatedRectangularMosaic<'a, LONG, SHORT, MosaicB>>,
>(
    set_builder: B,
    a_set: &'a RectangularMosaicSet<LONG, SHORT, MosaicA>,
    a_memo: MA,
    b_set: &'a RectangularMosaicSet<LONG, SHORT, MosaicB>,
    b_filter: FB,
) -> (result: B::Result)
    requires
        LONG == 2 * SHORT,
        a_set.wf(),
        b_set.wf(),
        exists|items: Seq<ArrayMosaic<LONG, LONG>>| set_builder.holds(items),
    ensures
        forall|items: Seq<ArrayMosaic<LONG, LONG>>| #[trigger]
            set_builder.holds(items) ==> B::result_holds(
                &result,
                items + spec_build_squares_memo::<SHORT, LONG, MosaicA, MosaicB, MA, FB>(
                    a_set,
                    &a_memo,
                    b_set,
                    &b_filter,
                ),
            ),
{
    let mut set_builder = set_builder;
    let ghost before = set_builder;
    let ghost base = choose|items: Seq<ArrayMosaic<LONG, LONG>>| set_builder.holds(items);
    let count = a_set.horizontal_bucket_count();
    proof {
        assert forall|items: Seq<ArrayMosaic<LONG, LONG>>| #[trigger] before.holds(items) implies set_builder.holds(
            items + squares_from_buckets::<SHORT, LONG, MosaicA, MosaicB, MA, FB>(
                a_set,
                0,
                &a_memo,
                b_set,
                &b_filter,
            ),
        ) by {
            assert(items + Seq::<ArrayMosaic<LONG, LONG>>::empty() =~= items);
        }
    }
    let mut j: usize = 0;
    while j < count
        invariant
            j <= count,
            count == a_set.horizontal_edges().len(),
            LONG == 2 * SHORT,
            a_set.wf(),
            b_set.wf(),
            before.holds(base),
            forall|items: Seq<ArrayMosaic<LONG, LONG>>| #[trigger]
                before.holds(items) ==> set_builder.holds(
                    items + squares_from_buckets::<SHORT, LONG, MosaicA, MosaicB, MA, FB>(
                        a_set,
                        j as nat,
                        &a_memo,
                        b_set,
                        &b_filter,
                    ),
                ),
        decreases count - j,
    {
        let ghost done = squares_from_buckets::<SHORT, LONG, MosaicA, MosaicB, MA, FB>(
            a_set,
            j as nat,
            &a_memo,
            b_set,
            &b_filter,
        );
        let ghost bucket = squares_from_bucket::<SHORT, LONG, MosaicA, MosaicB, MA, FB>(
            a_set,
            j as int,
            &a_memo,
            b_set,
            &b_filter,
        );
        let ghost earlier = set_builder;
        proof {
            assert(earlier.holds(base + done));
        }
        let mut shard = set_builder.new_shard();
        let ghost handed_out = set_builder;
        fill_square_shard::<SHORT, LONG, B::Shard, MosaicA, MosaicB, MA, FB>(
            &mut shard,
            a_set,
            j,
            &a_memo,
            b_set,
            &b_filter,
        );
        proof {
            assert(shard.holds(Seq::<ArrayMosaic<LONG, LONG>>::empty() + bucket));
            assert(Seq::<ArrayMosaic<LONG, LONG>>::empty() + bucket =~= bucket);
        }
        let partial = shard.finish();
        proof {
            assert(B::Shard::partial_holds(&partial, bucket));
            assert(handed_out.holds(base + done));
        }
        set_builder.merge(partial);
        proof {
            assert forall|items: Seq<ArrayMosaic<LONG, LONG>>| #[trigger] before.holds(items) implies set_builder.holds(
                items + (done + bucket),
            ) by {
                assert(earlier.holds(items + done));
                assert(handed_out.holds(items + done));
                assert((items + done) + bucket =~= items + (done + bucket));
            }
        }
        j = j + 1;
    }
    proof {
        assert(set_builder.holds(base + squares_from_buckets::<SHORT, LONG, MosaicA, MosaicB, MA, FB>(
            a_set,
            count as nat,
            &a_memo,
            b_set,
            &b_filter,
        )));
    }
    let ghost full = set_builder;
    let result = set_builder.finish();
    proof {
        assert forall|items: Seq<ArrayMosaic<LONG, LONG>>| #[trigger] before.holds(items) implies B::result_holds(
            &result,
            items + spec_build_squares_memo::<SHORT, LONG, MosaicA, MosaicB, MA, FB>(
                a_set,
                &a_memo,
                b_set,
                &b_filter,
            ),
        ) by {
            assert(full.holds(items + squares_from_buckets::<SHORT, LONG, MosaicA, MosaicB, MA, FB>(
                a_set,
                count as nat,
                &a_memo,
                b_set,
                &b_filter,
            )));
        }
    }
    result
}

/// Builds the squares made of a mosaic of `a_set` on top that
/// `a_filter` takes and a mosaic of `b_set` below that `b_filter`
/// takes: see `spec_build_squares_memo`.
pub fn build_squares<
    'a,
    const SHORT: usize,
    const LONG: usize,
    B: SetBuilder<Item = ArrayMosaic<LONG, LONG>>,
    MosaicA: RectangularMosaic<LONG, SHORT> + 'a,
    MosaicB: RectangularMosaic<LONG, SHORT> + 'a,
    FA: Filter<RotatedRectangularMosaic<'a, LONG, SHORT, MosaicA>>,
    FB: Filter<RotatedRectangularMosaic<'a, LONG, SHORT, MosaicB>>,
>(
    set_builder: B,
    a_set: &'a RectangularMosaicSet<LONG, SHORT, MosaicA>,
    a_filter: FA,
    b_set: &'a RectangularMosaicSet<LONG, SHORT, MosaicB>,
    b_filter: FB,
) -> (result: B::Result)
    requires
        LONG == 2 * SHORT,
        a_set.wf(),
        b_set.wf(),
        exists|items: Seq<ArrayMosaic<LONG, LONG>>| set_builder.holds(items),
    ensures
        forall|items: Seq<ArrayMosaic<LONG, LONG>>| #[trigger]
            set_builder.holds(items) ==> B::result_holds(
                &result,
                items + spec_build_squares_memo::<
                    SHORT,
                    LONG,
                    MosaicA,
                    MosaicB,
                    Filtering<FA>,
                    Unmemoized<FB>,
                >(a_set, &Filtering(a_filter), b_set, &Unmemoized(b_filter)),
            ),
{
    build_squares_memo::<SHORT, LONG, B, MosaicA, MosaicB, Filtering<FA>, Unmemoized<FB>>(
        set_builder,
        a_set,
        Filtering(a_filter),
        b_set,
        Unmemoized(b_filter),
    )
}

/// `item` is made of the mosaic in the slot of `first` of `a_mosaics`, seen
/// after the rotation of `first`, on top, and of the mosaic in the slot of
/// `second` of `b_mosaics`, below: the two show the same colors where
/// they touch, the first is taken by `a_memo` and the second by `b_filter`
/// with the note made of the first, and no tile lies in two cells of `item`.
pub open spec fn is_square_of<
    'a,
    const SHORT: usize,
    const LONG: usize,
    MosaicA: RectangularMosaic<LONG, SHORT> + 'a,
    MosaicB: RectangularMosaic<LONG, SHORT> + 'a,
    MA: Memoizer<RotatedRectangularMosaic<'a, LONG, SHORT, MosaicA>>,
    FB: MemoFilter<MA::Memo, RotatedRectangularMosaic<'a, LONG, SHORT, MosaicB>>,
>(
    item: &ArrayMosaic<LONG, LONG>,
    a_mosaics: Seq<MosaicA>,
    first: RotatedIndex<RectangularRotation>,
    a_memo: &MA,
    b_mosaics: Seq<MosaicB>,
    second: RotatedIndex<RectangularRotation>,
    b_filter: &FB,
) -> bool {
    let a = RotatedRectangularMosaic::<LONG, SHORT, MosaicA> {
        mosaic: &a_mosaics[first.index as int],
        rotation: first.rotation,
    };
    let b = RotatedRectangularMosaic::<LONG, SHORT, MosaicB> {
        mosaic: &b_mosaics[second.index as int],
        rotation: second.rotation,
    };
    &&& first.index < a_mosaics.len()
    &&& second.index < b_mosaics.len()
    &&& rotated_horizontal_edge(b.mosaic, second.rotation, HorizontalSide::Top) == rotated_horizontal_edge(
        a.mosaic,
        first.rotation,
        HorizontalSide::Bottom,
    ).reverse()
    &&& a_memo.spec_memo(a) is Some
    &&& b_filter.spec_accepts(&a_memo.spec_memo(a)->0, b)
    &&& is_stacked(item, &a, &b)
    &&& tiles_used_once(item)
}

proof fn lemma_squares_come_from_a_bucket<
    'a,
    const SHORT: usize,
    const LONG: usize,
    MosaicA: RectangularMosaic<LONG, SHORT> + 'a,
    MosaicB: RectangularMosaic<LONG, SHORT> + 'a,
    MA: Memoizer<RotatedRectangularMosaic<'a, LONG, SHORT, MosaicA>>,
    FB: MemoFilter<MA::Memo, RotatedRectangularMosaic<'a, LONG, SHORT, MosaicB>>,
>(
    a_set: &RectangularMosaicSet<LONG, SHORT, MosaicA>,
    count: nat,
    a_memo: &MA,
    b_set: &RectangularMosaicSet<LONG, SHORT, MosaicB>,
    b_filter: &FB,
    i: int,
) -> (place: (int, int))
    requires
        0 <= i < squares_from_buckets::<SHORT, LONG, MosaicA, MosaicB, MA, FB>(
            a_set,
            count,
            a_memo,
            b_set,
            b_filter,
        ).len(),
    ensures
        0 <= place.0 < count,
        0 <= place.1 < squares_from_bucket::<SHORT, LONG, MosaicA, MosaicB, MA, FB>(
            a_set,
            place.0,
            a_memo,
            b_set,
            b_filter,
        ).len(),
        squares_from_bucket::<SHORT, LONG, MosaicA, MosaicB, MA, FB>(
            a_set,
            place.0,
            a_memo,
            b_set,
            b_filter,
        )[place.1] == squares_from_buckets::<SHORT, LONG, MosaicA, MosaicB, MA, FB>(
            a_set,
            count,
            a_memo,
            b_set,
            b_filter,
        )[i],
    decreases count,
{
    let earlier = squares_from_buckets::<SHORT, LONG, MosaicA, MosaicB, MA, FB>(
        a_set,
        (count - 1) as nat,
        a_memo,
        b_set,
        b_filter,
    );
    if i < earlier.len() {
        lemma_squares_come_from_a_bucket::<SHORT, LONG, MosaicA, MosaicB, MA, FB>(
            a_set,
            (count - 1) as nat,
            a_memo,
            b_set,
            b_filter,
            i,
        )
    } else {
        (count - 1, i - earlier.len())
    }
}

/// Every mosaic that `build_squares_memo` builds is made of a mosaic of `a_set`
/// and a mosaic of `b_set` that show the same colors where they touch and
/// that the two rules take, and no tile lies in two of its cells.
pub proof fn lemma_built_squares_are_sound<
    'a,
    const SHORT: usize,
    const LONG: usize,
    MosaicA: RectangularMosaic<LONG, SHORT> + 'a,
    MosaicB: RectangularMosaic<LONG, SHORT> + 'a,
    MA: Memoizer<RotatedRectangularMosaic<'a, LONG, SHORT, MosaicA>>,
    FB: MemoFilter<MA::Memo, RotatedRectangularMosaic<'a, LONG, SHORT, MosaicB>>,
>(
    a_set: &RectangularMosaicSet<LONG, SHORT, MosaicA>,
    a_memo: &MA,
    b_set: &RectangularMosaicSet<LONG, SHORT, MosaicB>,
    b_filter: &FB,
    i: int,
)
    requires
        LONG == 2 * SHORT,
        a_set.wf(),
        b_set.wf(),
        0 <= i < spec_build_squares_memo::<SHORT, LONG, MosaicA, MosaicB, MA, FB>(
            a_set,
            a_memo,
            b_set,
            b_filter,
        ).len(),
    ensures
        exists|first: RotatedIndex<RectangularRotation>, second: RotatedIndex<RectangularRotation>| #[trigger]
            is_square_of::<SHORT, LONG, MosaicA, MosaicB, MA, FB>(
                &spec_build_squares_memo::<SHORT, LONG, MosaicA, MosaicB, MA, FB>(
                    a_set,
                    a_memo,
                    b_set,
                    b_filter,
                )[i],
                a_set@,
                first,
                a_memo,
                b_set@,
                second,
                b_filter,
            ),
{
    let item = spec_build_squares_memo::<SHORT, LONG, MosaicA, MosaicB, MA, FB>(
        a_set,
        a_memo,
        b_set,
        b_filter,
    )[i];
    let (j, k) = lemma_squares_come_from_a_bucket::<SHORT, LONG, MosaicA, MosaicB, MA, FB>(
        a_set,
        a_set.horizontal_edges().len(),
        a_memo,
        b_set,
        b_filter,
        i,
    );
    let key = a_set.horizontal_edges()[j]@;
    let a_slots = crate::set::rectangle::spec_query_horizontal(a_set@, HorizontalSide::Bottom, key);
    let b_slots = crate::set::rectangle::spec_query_horizontal(b_set@, HorizontalSide::Top, key.reverse());
    let firsts = crate::set::rectangle::spec_views::<LONG, SHORT, MosaicA>(a_set@, a_slots);
    let seconds = crate::set::rectangle::spec_views::<LONG, SHORT, MosaicB>(b_set@, b_slots);
    let combiner = Stacked::<SHORT, LONG>;
    crate::set::join::lemma_pair_items_are_combined(firsts, seconds, a_memo, b_filter, &combiner, k);
    let (p, q) = choose|p: int, q: int|
        0 <= p < firsts.len() && 0 <= q < seconds.len() && a_memo.spec_memo(firsts[p]) is Some
            && b_filter.spec_accepts(&a_memo.spec_memo(firsts[p])->0, seconds[q])
            && #[trigger] combiner.spec_combine(firsts[p], seconds[q]) == Some(item);
    a_set.lemma_len_fits();
    b_set.lemma_len_fits();
    crate::set::rectangle::lemma_query_horizontal_is_sound(a_set@, HorizontalSide::Bottom, key, p);
    crate::set::rectangle::lemma_query_horizontal_is_sound(b_set@, HorizontalSide::Top, key.reverse(), q);
    lemma_combined_rectangles::<SHORT, LONG, RotatedRectangularMosaic<LONG, SHORT, MosaicA>, RotatedRectangularMosaic<LONG, SHORT, MosaicB>>(
        &firsts[p],
        &seconds[q],
    );
    assert(is_square_of::<SHORT, LONG, MosaicA, MosaicB, MA, FB>(
        &item,
        a_set@,
        a_slots[p],
        a_memo,
        b_set@,
        b_slots[q],
        b_filter,
    ));
}

/// The rules by which `build_rectangular_corners` takes first and second halves.
pub fn rectangular_corners_rules() -> (rules: (Filtering<SquareRotated>, Unmemoized<SquareRotated>))
    ensures
        rules.0 == Filtering(SquareRotated(Rotation::Identity)),
        rules.1 == Unmemoized(SquareRotated(Rotation::QuarterTurnRight)),
{
    (Filtering(SquareRotated(Rotation::Identity)), Unmemoized(SquareRotated(Rotation::QuarterTurnRight)))
}

/// Builds the rectangular corners from square corners and square edges: a
/// corner in canonical orientation to the left, an edge turned a quarter
/// turn to the right from its canonical orientation to the right.
pub fn build_rectangular_corners<
    'a,
    const SHORT: usize,
    const LONG: usize,
    B: SetBuilder<Item = ArrayMosaic<LONG, SHORT>>,
    CornerMosaic: SquareMosaic<SHORT> + 'a,
    EdgeMosaic: SquareMosaic<SHORT> + 'a,
>(
    set_builder: B,
    corners: &'a SquareMosaicSet<SHORT, CornerMosaic>,
    edges: &'a SquareMosaicSet<SHORT, EdgeMosaic>,
) -> (result: B::Result)
    requires
        LONG == 2 * SHORT,
        corners.wf(),
        edges.wf(),
        exists|items: Seq<ArrayMosaic<LONG, SHORT>>| set_builder.holds(items),
    ensures
        forall|items: Seq<ArrayMosaic<LONG, SHORT>>| #[trigger]
            set_builder.holds(items) ==> B::result_holds(
                &result,
                items + spec_build_rectangles_memo::<SHORT, LONG, CornerMosaic, EdgeMosaic, Filtering<SquareRotated>, Unmemoized<SquareRotated>>(
                    corners,
                    &Filtering(SquareRotated(Rotation::Identity)),
                    edges,
                    &Unmemoized(SquareRotated(Rotation::QuarterTurnRight)),
                ),
            ),
{
    let (first, second) = rectangular_corners_rules();
    build_rectangles_memo::<SHORT, LONG, B, CornerMosaic, EdgeMosaic, Filtering<SquareRotated>, Unmemoized<SquareRotated>>(
        set_builder,
        corners,
        first,
        edges,
        second,
    )
}

/// The rules by which `build_rectangular_edges` takes first and second halves.
pub fn rectangular_edges_rules() -> (rules: (Filtering<SquareRotated>, Unmemoized<Any>))
    ensures
        rules.0 == Filtering(SquareRotated(Rotation::Identity)),
        rules.1 == Unmemoized(Any),
{
    (Filtering(SquareRotated(Rotation::Identity)), Unmemoized(Any))
}

/// Builds the rectangular edges from square edges and square centers: an edge
/// in canonical orientation to the left, a center in any orientation to the
/// right.
pub fn build_rectangular_edges<
    'a,
    const SHORT: usize,
    const LONG: usize,
    B: SetBuilder<Item = ArrayMosaic<LONG, SHORT>>,
    EdgeMosaic: SquareMosaic<SHORT> + 'a,
    CenterMosaic: SquareMosaic<SHORT> + 'a,
>(
    set_builder: B,
    edges: &'a SquareMosaicSet<SHORT, EdgeMosaic>,
    centers: &'a SquareMosaicSet<SHORT, CenterMosaic>,
) -> (result: B::Result)
    requires
        LONG == 2 * SHORT,
        edges.wf(),
        centers.wf(),
        exists|items: Seq<ArrayMosaic<LONG, SHORT>>| set_builder.holds(items),
    ensures
        forall|items: Seq<ArrayMosaic<LONG, SHORT>>| #[trigger]
            set_builder.holds(items) ==> B::result_holds(
                &result,
                items + spec_build_rectangles_memo::<SHORT, LONG, EdgeMosaic, CenterMosaic, Filtering<SquareRotated>, Unmemoized<Any>>(
                    edges,
                    &Filtering(SquareRotated(Rotation::Identity)),
                    centers,
                    &Unmemoized(Any),
                ),
            ),
{
    let (first, second) = rectangular_edges_rules();
    build_rectangles_memo::<SHORT, LONG, B, EdgeMosaic, CenterMosaic, Filtering<SquareRotated>, Unmemoized<Any>>(
        set_builder,
        edges,
        first,
        centers,
        second,
    )
}

/// The rules by which `build_rectangular_centers` takes first and second halves.
pub fn rectangular_centers_rules() -> (rules: (LeastTile, LeastTileUprightOrLeft))
    ensures
        rules.0 == LeastTile,
        rules.1 == LeastTileUprightOrLeft,
{
    (LeastTile, LeastTileUprightOrLeft)
}

/// Builds the rectangular centers from square centers: two centers in any
/// orientation side by side, such that the least rotated tile of the two
/// stands upright or is turned a quarter turn to the left.
pub fn build_rectangular_centers<
    'a,
    const SHORT: usize,
    const LONG: usize,
    B: SetBuilder<Item = ArrayMosaic<LONG, SHORT>>,
    CenterMosaic: SquareMosaic<SHORT> + 'a,
>(
    set_builder: B,
    centers: &'a SquareMosaicSet<SHORT, CenterMosaic>,
) -> (result: B::Result)
    requires
        LONG == 2 * SHORT,
        centers.wf(),
        exists|items: Seq<ArrayMosaic<LONG, SHORT>>| set_builder.holds(items),
    ensures
        forall|items: Seq<ArrayMosaic<LONG, SHORT>>| #[trigger]
            set_builder.holds(items) ==> B::result_holds(
                &result,
                items + spec_build_rectangles_memo::<SHORT, LONG, CenterMosaic, CenterMosaic, LeastTile, LeastTileUprightOrLeft>(
                    centers,
                    &LeastTile,
                    centers,
                    &LeastTileUprightOrLeft,
                ),
            ),
{
    let (first, second) = rectangular_centers_rules();
    build_rectangles_memo::<SHORT, LONG, B, CenterMosaic, CenterMosaic, LeastTile, LeastTileUprightOrLeft>(
        set_builder,
        centers,
        first,
        centers,
        second,
    )
}

/// The rules by which `build_square_corners` takes first and second halves.
pub fn square_corners_rules() -> (rules: (Filtering<RectangleRotated>, Unmemoized<RectangleRotated>))
    ensures
        rules.0 == Filtering(RectangleRotated(RectangularRotation::Identity)),
        rules.1 == Unmemoized(RectangleRotated(RectangularRotation::Identity)),
{
    (Filtering(RectangleRotated(RectangularRotation::Identity)), Unmemoized(RectangleRotated(RectangularRotation::Identity)))
}

/// Builds the square corners from rectangular corners and rectangular edges:
/// a corner in canonical orientation on top, an edge in canonical
/// orientation below.
pub fn build_square_corners<
    'a,
    const SHORT: usize,
    const LONG: usize,
    B: SetBuilder<Item = ArrayMosaic<LONG, LONG>>,
    CornerMosaic: RectangularMosaic<LONG, SHORT> + 'a,
    EdgeMosaic: RectangularMosaic<LONG, SHORT> + 'a,
>(
    set_builder: B,
    corners: &'a RectangularMosaicSet<LONG, SHORT, CornerMosaic>,
    edges: &'a RectangularMosaicSet<LONG, SHORT, EdgeMosaic>,
) -> (result: B::Result)
    requires
        LONG == 2 * SHORT,
        corners.wf(),
        edges.wf(),
        exists|items: Seq<ArrayMosaic<LONG, LONG>>| set_builder.holds(items),
    ensures
        forall|items: Seq<ArrayMosaic<LONG, LONG>>| #[trigger]
            set_builder.holds(items) ==> B::result_holds(
                &result,
                items + spec_build_squares_memo::<SHORT, LONG, CornerMosaic, EdgeMosaic, Filtering<RectangleRotated>, Unmemoized<RectangleRotated>>(
                    corners,
                    &Filtering(RectangleRotated(RectangularRotation::Identity)),
                    edges,
                    &Unmemoized(RectangleRotated(RectangularRotation::Identity)),
                ),
            ),
{
    let (first, second) = square_corners_rules();
    build_squares_memo::<SHORT, LONG, B, CornerMosaic, EdgeMosaic, Filtering<RectangleRotated>, Unmemoized<RectangleRotated>>(
        set_builder,
        corners,
        first,
        edges,
        second,
    )
}

/// The rules by which `build_square_edges` takes first and second halves.
pub fn square_edges_rules() -> (rules: (Filtering<RectangleRotated>, Unmemoized<RectangleRotated>))
    ensures
        rules.0 == Filtering(RectangleRotated(RectangularRotation::Identity)),
        rules.1 == Unmemoized(RectangleRotated(RectangularRotation::Identity)),
{
    (Filtering(RectangleRotated(RectangularRotation::Identity)), Unmemoized(RectangleRotated(RectangularRotation::Identity)))
}

/// Builds the square edges from rectangular edges: two edges in canonical
/// orientation, one on top of the other.
pub fn build_square_edges<
    'a,
    const SHORT: usize,
    const LONG: usize,
    B: SetBuilder<Item = ArrayMosaic<LONG, LONG>>,
    EdgeMosaic: RectangularMosaic<LONG, SHORT> + 'a,
>(
    set_builder: B,
    edges: &'a RectangularMosaicSet<LONG, SHORT, EdgeMosaic>,
) -> (result: B::Result)
    requires
        LONG == 2 * SHORT,
        edges.wf(),
        exists|items: Seq<ArrayMosaic<LONG, LONG>>| set_builder.holds(items),
    ensures
        forall|items: Seq<ArrayMosaic<LONG, LONG>>| #[trigger]
            set_builder.holds(items) ==> B::result_holds(
                &result,
                items + spec_build_squares_memo::<SHORT, LONG, EdgeMosaic, EdgeMosaic, Filtering<RectangleRotated>, Unmemoized<RectangleRotated>>(
                    edges,
                    &Filtering(RectangleRotated(RectangularRotation::Identity)),
                    edges,
                    &Unmemoized(RectangleRotated(RectangularRotation::Identity)),
                ),
            ),
{
    let (first, second) = square_edges_rules();
    build_squares_memo::<SHORT, LONG, B, EdgeMosaic, EdgeMosaic, Filtering<RectangleRotated>, Unmemoized<RectangleRotated>>(
        set_builder,
        edges,
        first,
        edges,
        second,
    )
}

/// The rules by which `build_square_centers` takes first and second halves.
pub fn square_centers_rules() -> (rules: (LeastTile, LeastTileUpright))
    ensures
        rules.0 == LeastTile,
        rules.1 == LeastTileUpright,
{
    (LeastTile, LeastTileUpright)
}

/// Builds the square centers from rectangular centers: two centers in any
/// orientation, one on top of the other, such that the least rotated tile of
/// the two stands upright.
pub fn build_square_centers<
    'a,
    const SHORT: usize,
    const LONG: usize,
    B: SetBuilder<Item = ArrayMosaic<LONG, LONG>>,
    CenterMosaic: RectangularMosaic<LONG, SHORT> + 'a,
>(
    set_builder: B,
    centers: &'a RectangularMosaicSet<LONG, SHORT, CenterMosaic>,
) -> (result: B::Result)
    requires
        LONG == 2 * SHORT,
        centers.wf(),
        exists|items: Seq<ArrayMosaic<LONG, LONG>>| set_builder.holds(items),
    ensures
        forall|items: Seq<ArrayMosaic<LONG, LONG>>| #[trigger]
            set_builder.holds(items) ==> B::result_holds(
                &result,
                items + spec_build_squares_memo::<SHORT, LONG, CenterMosaic, CenterMosaic, LeastTile, LeastTileUpright>(
                    centers,
                    &LeastTile,
                    centers,
                    &LeastTileUpright,
                ),
            ),
{
    let (first, second) = square_centers_rules();
    build_squares_memo::<SHORT, LONG, B, CenterMosaic, CenterMosaic, LeastTile, LeastTileUpright>(
        set_builder,
        centers,
        first,
        centers,
        second,
    )
}

} // verus!
