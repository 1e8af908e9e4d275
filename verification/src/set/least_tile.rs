use crate::mosaic::{
    same_tiles, ArrayMosaic, RectangularMosaic, RotatedRectangularMosaic, RotatedSquareMosaic,
    SquareMosaic,
};
use crate::rectangular::RectangularRotation;
use crate::set::combine::{is_side_by_side, tiles_used_once};
use crate::set::filter::{
    lemma_min_rotated_tile_is_least, spec_lesser, spec_min_rotated_tile, LeastTile,
    LeastTileUprightOrLeft,
};
use crate::set::index::RotatedIndex;
use crate::set::square::SquareMosaicSet;
use crate::set::{is_rectangle_of, lemma_built_rectangles_are_sound, spec_build_rectangles_memo};
use crate::{RotatedTile, Rotation};
use vstd::prelude::*;

verus! {

/// Whether a rotated tile stands upright or is turned a quarter turn to the
/// left.
pub open spec fn upright_or_left(rotated_tile: RotatedTile) -> bool {
    rotated_tile.rotation == Rotation::Identity || rotated_tile.rotation
        == Rotation::QuarterTurnLeft
}

/// Rotated tiles of the same rank are the same.
proof fn lemma_rank_determines(first: RotatedTile, second: RotatedTile)
    requires
        first.spec_rank() == second.spec_rank(),
    ensures
        first == second,
{
}

/// The least rotated tile of a mosaic with cells is one of its cells.
proof fn lemma_least_tile_is_a_cell<const W: usize, const H: usize, M: RectangularMosaic<W, H>>(
    mosaic: &M,
) -> (place: (int, int))
    requires
        W > 0,
        H > 0,
    ensures
        0 <= place.0 < W,
        0 <= place.1 < H,
        mosaic.spec_get(place.0, place.1) == spec_min_rotated_tile(mosaic),
{
    lemma_min_rotated_tile_is_least(mosaic);
    let least = spec_min_rotated_tile(mosaic);
    if exists|x: int, y: int| 0 <= x < W && 0 <= y < H && #[trigger] mosaic.spec_get(x, y) == least {
        choose|x: int, y: int| 0 <= x < W && 0 <= y < H && #[trigger] mosaic.spec_get(x, y) == least
    } else {
        assert(least.spec_rank() <= mosaic.spec_get(0, 0).spec_rank());
        lemma_rank_determines(least, mosaic.spec_get(0, 0));
        (0, 0)
    }
}

/// Of a mosaic in which no tile lies twice and its half turn, at most one has
/// a least rotated tile that stands upright or is turned a quarter turn to
/// the left.
pub proof fn lemma_half_turn_turns_the_least_tile<
    const W: usize,
    const H: usize,
    A: RectangularMosaic<W, H>,
    B: RectangularMosaic<W, H>,
>(a: &A, b: &B)
    requires
        W > 0,
        H > 0,
        tiles_used_once(a),
        same_tiles(&RotatedRectangularMosaic { mosaic: a, rotation: RectangularRotation::HalfTurn }, b),
        upright_or_left(spec_min_rotated_tile(a)),
    ensures
        !upright_or_left(spec_min_rotated_tile(b)),
{
    let turned = RotatedRectangularMosaic { mosaic: a, rotation: RectangularRotation::HalfTurn };
    let (xa, ya) = lemma_least_tile_is_a_cell(a);
    let (xb, yb) = lemma_least_tile_is_a_cell(b);
    lemma_min_rotated_tile_is_least(a);
    lemma_min_rotated_tile_is_least(b);
    let least_a = a.spec_get(xa, ya);
    let least_b = b.spec_get(xb, yb);
    let source = a.spec_get(W - 1 - xb, H - 1 - yb);
    assert(turned.spec_get(xb, yb) == b.spec_get(xb, yb));
    assert(least_b == source.plus(Rotation::HalfTurn));
    assert(turned.spec_get(W - 1 - xa, H - 1 - ya) == b.spec_get(W - 1 - xa, H - 1 - ya));
    assert(b.spec_get(W - 1 - xa, H - 1 - ya) == least_a.plus(Rotation::HalfTurn));
    assert(least_b.spec_rank() <= least_a.plus(Rotation::HalfTurn).spec_rank());
    assert(least_a.spec_rank() <= source.spec_rank());
    assert(least_a.tile == source.tile);
    if !(xa == W - 1 - xb && ya == H - 1 - yb) {
        assert(a.spec_get(xa, ya).tile != a.spec_get(W - 1 - xb, H - 1 - yb).tile);
    }
}

/// The least rotated tile of a rectangle is the lesser of the least rotated
/// tiles of its halves.
pub proof fn lemma_least_tile_of_halves<
    const SHORT: usize,
    const LONG: usize,
    A: SquareMosaic<SHORT>,
    B: SquareMosaic<SHORT>,
>(item: &ArrayMosaic<LONG, SHORT>, a: &A, b: &B)
    requires
        LONG == 2 * SHORT,
        SHORT > 0,
        is_side_by_side(item, a, b),
    ensures
        spec_min_rotated_tile(item) == spec_lesser(spec_min_rotated_tile(a), spec_min_rotated_tile(b)),
{
    let (xi, yi) = lemma_least_tile_is_a_cell(item);
    let (xa, ya) = lemma_least_tile_is_a_cell(a);
    let (xb, yb) = lemma_least_tile_is_a_cell(b);
    lemma_min_rotated_tile_is_least(item);
    lemma_min_rotated_tile_is_least(a);
    lemma_min_rotated_tile_is_least(b);
    let least = spec_lesser(spec_min_rotated_tile(a), spec_min_rotated_tile(b));
    assert(item.spec_get(xa, ya) == a.spec_get(xa, ya));
    assert(item.spec_get(xb + SHORT, yb) == b.spec_get(xb, yb));
    assert(spec_min_rotated_tile(item).spec_rank() <= least.spec_rank());
    if xi < SHORT {
        assert(item.spec_get(xi, yi) == a.spec_get(xi, yi));
    } else {
        assert(item.spec_get(xi, yi) == b.spec_get(xi - SHORT, yi));
    }
    assert(least.spec_rank() <= spec_min_rotated_tile(item).spec_rank());
    lemma_rank_determines(least, spec_min_rotated_tile(item));
}

/// No rectangle built of two centers by the rules for rectangular centers is
/// the half turn of one so built, itself included: of a rectangle and its
/// half turn the rules take at most one.
pub proof fn lemma_built_rectangular_centers_hold_no_half_turns<
    'a,
    const SHORT: usize,
    const LONG: usize,
    M: SquareMosaic<SHORT> + 'a,
>(centers: &SquareMosaicSet<SHORT, M>, i: int, j: int)
    requires
        LONG == 2 * SHORT,
        SHORT > 0,
        centers.wf(),
        0 <= i < spec_build_rectangles_memo::<SHORT, LONG, M, M, LeastTile, LeastTileUprightOrLeft>(
            centers,
            &LeastTile,
            centers,
            &LeastTileUprightOrLeft,
        ).len(),
        0 <= j < spec_build_rectangles_memo::<SHORT, LONG, M, M, LeastTile, LeastTileUprightOrLeft>(
            centers,
            &LeastTile,
            centers,
            &LeastTileUprightOrLeft,
        ).len(),
    ensures
        !same_tiles(
            &RotatedRectangularMosaic {
                mosaic: &spec_build_rectangles_memo::<SHORT, LONG, M, M, LeastTile, LeastTileUprightOrLeft>(
                    centers,
                    &LeastTile,
                    centers,
                    &LeastTileUprightOrLeft,
                )[i],
                rotation: RectangularRotation::HalfTurn,
            },
            &spec_build_rectangles_memo::<SHORT, LONG, M, M, LeastTile, LeastTileUprightOrLeft>(
                centers,
                &LeastTile,
                centers,
                &LeastTileUprightOrLeft,
            )[j],
        ),
{
    let built = spec_build_rectangles_memo::<SHORT, LONG, M, M, LeastTile, LeastTileUprightOrLeft>(
        centers,
        &LeastTile,
        centers,
        &LeastTileUprightOrLeft,
    );
    lemma_least_tile_of_built_center::<SHORT, LONG, M>(centers, i);
    lemma_least_tile_of_built_center::<SHORT, LONG, M>(centers, j);
    if same_tiles(
        &RotatedRectangularMosaic { mosaic: &built[i], rotation: RectangularRotation::HalfTurn },
        &built[j],
    ) {
        lemma_half_turn_turns_the_least_tile(&built[i], &built[j]);
    }
}

/// In a rectangle built of two centers by the rules for rectangular centers
/// no tile lies twice, and its least rotated tile stands upright or is turned
/// a quarter turn to the left.
pub proof fn lemma_least_tile_of_built_center<
    'a,
    const SHORT: usize,
    const LONG: usize,
    M: SquareMosaic<SHORT> + 'a,
>(centers: &SquareMosaicSet<SHORT, M>, i: int)
    requires
        LONG == 2 * SHORT,
        SHORT > 0,
        centers.wf(),
        0 <= i < spec_build_rectangles_memo::<SHORT, LONG, M, M, LeastTile, LeastTileUprightOrLeft>(
            centers,
            &LeastTile,
            centers,
            &LeastTileUprightOrLeft,
        ).len(),
    ensures
        tiles_used_once(
            &spec_build_rectangles_memo::<SHORT, LONG, M, M, LeastTile, LeastTileUprightOrLeft>(
                centers,
                &LeastTile,
                centers,
                &LeastTileUprightOrLeft,
            )[i],
        ),
        upright_or_left(
            spec_min_rotated_tile(
                &spec_build_rectangles_memo::<SHORT, LONG, M, M, LeastTile, LeastTileUprightOrLeft>(
                    centers,
                    &LeastTile,
                    centers,
                    &LeastTileUprightOrLeft,
                )[i],
            ),
        ),
{
    let built = spec_build_rectangles_memo::<SHORT, LONG, M, M, LeastTile, LeastTileUprightOrLeft>(
        centers,
        &LeastTile,
        centers,
        &LeastTileUprightOrLeft,
    );
    lemma_built_rectangles_are_sound::<SHORT, LONG, M, M, LeastTile, LeastTileUprightOrLeft>(
        centers,
        &LeastTile,
        centers,
        &LeastTileUprightOrLeft,
        i,
    );
    let (first, second) = choose|first: RotatedIndex<Rotation>, second: RotatedIndex<Rotation>| #[trigger]
        is_rectangle_of::<SHORT, LONG, M, M, LeastTile, LeastTileUprightOrLeft>(
            &built[i],
            centers@,
            first,
            &LeastTile,
            centers@,
            second,
            &LeastTileUprightOrLeft,
        );
    let a = RotatedSquareMosaic::<SHORT, M> { mosaic: &centers@[first.index as int], rotation: first.rotation };
    let b = RotatedSquareMosaic::<SHORT, M> { mosaic: &centers@[second.index as int], rotation: second.rotation };
    lemma_least_tile_of_halves::<SHORT, LONG, RotatedSquareMosaic<SHORT, M>, RotatedSquareMosaic<SHORT, M>>(&built[i], &a, &b);
}

} // verus!
