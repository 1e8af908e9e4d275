use crate::mosaic::{RectangularMosaic, RotatedRectangularMosaic, RotatedSquareMosaic, SquareMosaic};
use crate::rectangular::RectangularRotation;
use crate::{RotatedTile, Rotation};
use vstd::prelude::*;

verus! {

/// Decides which candidates are taken.
pub trait Filter<V> {
    spec fn spec_accepts(&self, candidate: V) -> bool;

    fn accepts(&self, candidate: V) -> (accepted: bool)
        ensures
            accepted == self.spec_accepts(candidate),
    ;
}

/// Decides which first halves are taken, and notes for each of them what the
/// choice of its second halves goes by.
pub trait Memoizer<V> {
    type Memo;

    spec fn spec_memo(&self, candidate: V) -> Option<Self::Memo>;

    fn memo(&self, candidate: V) -> (memo: Option<Self::Memo>)
        ensures
            memo == self.spec_memo(candidate),
    ;
}

/// Decides which second halves are taken, given the note made of the first
/// half.
pub trait MemoFilter<Memo, V> {
    spec fn spec_accepts(&self, memo: &Memo, candidate: V) -> bool;

    fn accepts(&self, memo: &Memo, candidate: V) -> (accepted: bool)
        ensures
            accepted == self.spec_accepts(memo, candidate),
    ;
}

/// Takes every candidate.
pub struct Any;

impl<V> Filter<V> for Any {
    open spec fn spec_accepts(&self, candidate: V) -> bool {
        true
    }

    fn accepts(&self, candidate: V) -> (accepted: bool) {
        true
    }
}

/// Takes the views of square mosaics that are seen after the given rotation.
pub struct SquareRotated(pub Rotation);

impl<'a, const N: usize, M: SquareMosaic<N>> Filter<RotatedSquareMosaic<'a, N, M>> for SquareRotated {
    open spec fn spec_accepts(&self, candidate: RotatedSquareMosaic<'a, N, M>) -> bool {
        candidate.rotation == self.0
    }

    fn accepts(&self, candidate: RotatedSquareMosaic<'a, N, M>) -> (accepted: bool) {
        candidate.rotation == self.0
    }
}

/// Takes the views of rectangular mosaics that are seen after the given
/// rotation.
pub struct RectangleRotated(pub RectangularRotation);

impl<'a, const W: usize, const H: usize, M: RectangularMosaic<W, H>> Filter<RotatedRectangularMosaic<'a, W, H, M>> for RectangleRotated {
    open spec fn spec_accepts(&self, candidate: RotatedRectangularMosaic<'a, W, H, M>) -> bool {
        candidate.rotation == self.0
    }

    fn accepts(&self, candidate: RotatedRectangularMosaic<'a, W, H, M>) -> (accepted: bool) {
        candidate.rotation == self.0
    }
}

/// A filter for first halves, as a memoizer that notes nothing.
pub struct Filtering<F>(pub F);

impl<V, F: Filter<V>> Memoizer<V> for Filtering<F> {
    type Memo = ();

    open spec fn spec_memo(&self, candidate: V) -> Option<()> {
        if self.0.spec_accepts(candidate) {
            Some(())
        } else {
            None
        }
    }

    fn memo(&self, candidate: V) -> (memo: Option<()>) {
        if self.0.accepts(candidate) {
            Some(())
        } else {
            None
        }
    }
}

/// A filter for second halves that goes by no note.
pub struct Unmemoized<F>(pub F);

impl<V, F: Filter<V>> MemoFilter<(), V> for Unmemoized<F> {
    open spec fn spec_accepts(&self, memo: &(), candidate: V) -> bool {
        self.0.spec_accepts(candidate)
    }

    fn accepts(&self, memo: &(), candidate: V) -> (accepted: bool) {
        self.0.accepts(candidate)
    }
}

/// The one of two rotated tiles that comes first in the order by tile number,
/// then rotation.
pub open spec fn spec_lesser(a: RotatedTile, b: RotatedTile) -> RotatedTile {
    if b.spec_rank() < a.spec_rank() {
        b
    } else {
        a
    }
}

/// The one of two rotated tiles that comes first in the order by tile number,
/// then rotation.
#[verifier::when_used_as_spec(spec_lesser)]
pub fn lesser(a: RotatedTile, b: RotatedTile) -> (least: RotatedTile)
    ensures
        least == spec_lesser(a, b),
{
    if b.rank() < a.rank() {
        b
    } else {
        a
    }
}

/// The least of `start` and the first `count` cells of row `y` of `mosaic`.
pub open spec fn least_in_row<const W: usize, const H: usize, M: RectangularMosaic<W, H>>(
    mosaic: &M,
    y: int,
    count: nat,
    start: RotatedTile,
) -> RotatedTile
    decreases count,
{
    if count == 0 {
        start
    } else {
        spec_lesser(least_in_row(mosaic, y, (count - 1) as nat, start), mosaic.spec_get(count - 1, y))
    }
}

/// The least of the greatest rotated tile and the cells of the first `rows`
/// rows of `mosaic`.
pub open spec fn least_of_rows<const W: usize, const H: usize, M: RectangularMosaic<W, H>>(
    mosaic: &M,
    rows: nat,
) -> RotatedTile
    decreases rows,
{
    if rows == 0 {
        RotatedTile::spec_maximum()
    } else {
        least_in_row(mosaic, rows - 1, W as nat, least_of_rows(mosaic, (rows - 1) as nat))
    }
}

/// The rotated tile of `mosaic` that comes first in the order by tile number,
/// then rotation; the greatest rotated tile where `mosaic` has no cell.
pub open spec fn spec_min_rotated_tile<const W: usize, const H: usize, M: RectangularMosaic<W, H>>(
    mosaic: &M,
) -> RotatedTile {
    least_of_rows(mosaic, H as nat)
}

/// The rotated tile of `mosaic` that comes first in the order by tile number,
/// then rotation; the greatest rotated tile where `mosaic` has no cell.
pub fn min_rotated_tile<const W: usize, const H: usize, M: RectangularMosaic<W, H>>(mosaic: M) -> (least:
    RotatedTile)
    ensures
        least == spec_min_rotated_tile(&mosaic),
{
    let mut result = RotatedTile::maximum();
    let mut y: usize = 0;
    while y < H
        invariant
            y <= H,
            result == least_of_rows(&mosaic, y as nat),
        decreases H - y,
    {
        let ghost start = result;
        let mut x: usize = 0;
        while x < W
            invariant
                x <= W,
                y < H,
                result == least_in_row(&mosaic, y as int, x as nat, start),
            decreases W - x,
        {
            result = lesser(result, mosaic.get(x, y));
            x = x + 1;
        }
        y = y + 1;
    }
    result
}

proof fn lemma_least_in_row<const W: usize, const H: usize, M: RectangularMosaic<W, H>>(
    mosaic: &M,
    y: int,
    count: nat,
    start: RotatedTile,
)
    ensures
        least_in_row(mosaic, y, count, start).spec_rank() <= start.spec_rank(),
        forall|x: int|
            0 <= x < count ==> least_in_row(mosaic, y, count, start).spec_rank() <= (
            #[trigger] mosaic.spec_get(x, y)).spec_rank(),
        least_in_row(mosaic, y, count, start) == start || exists|x: int|
            0 <= x < count && #[trigger] mosaic.spec_get(x, y) == least_in_row(
                mosaic,
                y,
                count,
                start,
            ),
    decreases count,
{
    if count > 0 {
        lemma_least_in_row(mosaic, y, (count - 1) as nat, start);
        let earlier = least_in_row(mosaic, y, (count - 1) as nat, start);
        let least = least_in_row(mosaic, y, count, start);
        if least != start {
            if least == earlier {
                let x = choose|x: int| 0 <= x < count - 1 && #[trigger] mosaic.spec_get(x, y) == earlier;
                assert(0 <= x < count && mosaic.spec_get(x, y) == least);
            } else {
                assert(mosaic.spec_get(count - 1, y) == least);
            }
        }
    }
}

proof fn lemma_least_of_rows<const W: usize, const H: usize, M: RectangularMosaic<W, H>>(
    mosaic: &M,
    rows: nat,
)
    ensures
        forall|x: int, y: int|
            0 <= x < W && 0 <= y < rows ==> least_of_rows(mosaic, rows).spec_rank() <= (
            #[trigger] mosaic.spec_get(x, y)).spec_rank(),
        least_of_rows(mosaic, rows) == RotatedTile::spec_maximum() || exists|x: int, y: int|
            0 <= x < W && 0 <= y < rows && #[trigger] mosaic.spec_get(x, y) == least_of_rows(
                mosaic,
                rows,
            ),
    decreases rows,
{
    if rows > 0 {
        let start = least_of_rows(mosaic, (rows - 1) as nat);
        let least = least_of_rows(mosaic, rows);
        lemma_least_of_rows(mosaic, (rows - 1) as nat);
        lemma_least_in_row(mosaic, rows - 1, W as nat, start);
        if least != RotatedTile::spec_maximum() {
            if least == start {
                let (x, y) = choose|x: int, y: int|
                    0 <= x < W && 0 <= y < rows - 1 && #[trigger] mosaic.spec_get(x, y) == start;
                assert(0 <= x < W && 0 <= y < rows && mosaic.spec_get(x, y) == least);
            } else {
                let x = choose|x: int| 0 <= x < W && #[trigger] mosaic.spec_get(x, rows - 1) == least;
                assert(0 <= x < W && 0 <= rows - 1 < rows && mosaic.spec_get(x, rows - 1) == least);
            }
        }
    }
}

/// The least rotated tile of a mosaic comes before or is each of its cells,
/// and it is one of them or the greatest rotated tile there is.
pub proof fn lemma_min_rotated_tile_is_least<const W: usize, const H: usize, M: RectangularMosaic<W, H>>(
    mosaic: &M,
)
    ensures
        forall|x: int, y: int|
            0 <= x < W && 0 <= y < H ==> spec_min_rotated_tile(mosaic).spec_rank() <= (
            #[trigger] mosaic.spec_get(x, y)).spec_rank(),
        spec_min_rotated_tile(mosaic) == RotatedTile::spec_maximum() || exists|x: int, y: int|
            0 <= x < W && 0 <= y < H && #[trigger] mosaic.spec_get(x, y) == spec_min_rotated_tile(
                mosaic,
            ),
{
    lemma_least_of_rows(mosaic, H as nat);
}

/// Takes every view of a square mosaic and notes its least rotated tile.
pub struct LeastTile;

impl<'a, const N: usize, M: SquareMosaic<N>> Memoizer<RotatedSquareMosaic<'a, N, M>> for LeastTile {
    type Memo = RotatedTile;

    open spec fn spec_memo(&self, candidate: RotatedSquareMosaic<'a, N, M>) -> Option<RotatedTile> {
        Some(spec_min_rotated_tile(&candidate))
    }

    fn memo(&self, candidate: RotatedSquareMosaic<'a, N, M>) -> (memo: Option<RotatedTile>) {
        Some(min_rotated_tile(candidate))
    }
}

impl<'a, const W: usize, const H: usize, M: RectangularMosaic<W, H>> Memoizer<RotatedRectangularMosaic<'a, W, H, M>> for LeastTile {
    type Memo = RotatedTile;

    open spec fn spec_memo(&self, candidate: RotatedRectangularMosaic<'a, W, H, M>) -> Option<RotatedTile> {
        Some(spec_min_rotated_tile(&candidate))
    }

    fn memo(&self, candidate: RotatedRectangularMosaic<'a, W, H, M>) -> (memo: Option<RotatedTile>) {
        Some(min_rotated_tile(candidate))
    }
}

/// Takes the views of square mosaics with which the least rotated tile of
/// both halves stands upright or is turned a quarter turn to the left.
pub struct LeastTileUprightOrLeft;

impl<'a, const N: usize, M: SquareMosaic<N>> MemoFilter<RotatedTile, RotatedSquareMosaic<'a, N, M>> for LeastTileUprightOrLeft {
    open spec fn spec_accepts(&self, memo: &RotatedTile, candidate: RotatedSquareMosaic<'a, N, M>) -> bool {
        let least = spec_lesser(*memo, spec_min_rotated_tile(&candidate));
        least.rotation == Rotation::Identity || least.rotation == Rotation::QuarterTurnLeft
    }

    fn accepts(&self, memo: &RotatedTile, candidate: RotatedSquareMosaic<'a, N, M>) -> (accepted: bool) {
        let least = lesser(*memo, min_rotated_tile(candidate));
        least.rotation == Rotation::Identity || least.rotation == Rotation::QuarterTurnLeft
    }
}

/// Takes the views of rectangular mosaics with which the least rotated tile
/// of both halves stands upright.
pub struct LeastTileUpright;

impl<'a, const W: usize, const H: usize, M: RectangularMosaic<W, H>> MemoFilter<RotatedTile, RotatedRectangularMosaic<'a, W, H, M>> for LeastTileUpright {
    open spec fn spec_accepts(&self, memo: &RotatedTile, candidate: RotatedRectangularMosaic<'a, W, H, M>) -> bool {
        spec_lesser(*memo, spec_min_rotated_tile(&candidate)).rotation == Rotation::Identity
    }

    fn accepts(&self, memo: &RotatedTile, candidate: RotatedRectangularMosaic<'a, W, H, M>) -> (accepted: bool) {
        lesser(*memo, min_rotated_tile(candidate)).rotation == Rotation::Identity
    }
}

} // verus!
