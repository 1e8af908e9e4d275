use crate::mosaic::{lemma_mosaic_of, mosaic_of, ArrayMosaic, RectangularMosaic, SquareMosaic};
use crate::RotatedTile;
use vstd::prelude::*;

verus! {

/// One mark for each of the 256 tiles, kept in a `BitArray` of the crate
/// bitvec. Verus does not look inside; what the marks are is told by
/// `marked`.
#[verifier::external_body]
pub struct TileMarks {
    bits: bitvec::array::BitArray<[u8; 32], bitvec::order::Lsb0>,
}

/// For each tile, by its number, whether `marks` holds a mark for it.
pub uninterp spec fn marked(marks: TileMarks) -> Seq<bool>;

/// `BitArray::ZERO` of bitvec, over 32 bytes: 256 bits, none of them set.
#[verifier::external_body]
fn no_marks() -> (marks: TileMarks)
    ensures
        marked(marks) == Seq::new(256, |i: int| false),
{
    TileMarks { bits: bitvec::array::BitArray::ZERO }
}

/// Indexing a `BitArray` of bitvec by a position: the bit at `index`, which
/// has to be one of the array's 256 positions.
#[verifier::external_body]
fn is_marked(marks: &TileMarks, index: usize) -> (set: bool)
    requires
        index < 256,
    ensures
        set == marked(*marks)[index as int],
{
    marks.bits[index]
}

/// `BitSlice::set` of bitvec with the value `true`: sets the bit at `index`,
/// which has to be one of the array's 256 positions, and leaves the others.
#[verifier::external_body]
fn mark(marks: &mut TileMarks, index: usize)
    requires
        index < 256,
    ensures
        marked(*final(marks)) == marked(*old(marks)).update(index as int, true),
{
    marks.bits.set(index, true);
}

/// Marks the tile of `tile` and tells whether it was unmarked before.
fn mark_tile(marks: &mut TileMarks, tile: RotatedTile) -> (fresh: bool)
    requires
        marked(*old(marks)).len() == 256,
    ensures
        fresh == !marked(*old(marks))[tile.tile.0 as int],
        marked(*final(marks)) == marked(*old(marks)).update(tile.tile.0 as int, true),
{
    let index = tile.tile.0 as usize;
    let fresh = !is_marked(marks, index);
    mark(marks, index);
    fresh
}

/// The cell in column `x` of row `y` of the rectangle that has `a` as its
/// left half and `b` as its right half.
pub open spec fn side_by_side_cell<const SHORT: usize, A: SquareMosaic<SHORT>, B: SquareMosaic<SHORT>>(
    a: &A,
    b: &B,
    x: int,
    y: int,
) -> RotatedTile {
    if x < SHORT {
        a.spec_get(x, y)
    } else {
        b.spec_get(x - SHORT, y)
    }
}

/// `mosaic` has `a` as its left half and `b` as its right half.
pub open spec fn is_side_by_side<
    const SHORT: usize,
    const LONG: usize,
    A: SquareMosaic<SHORT>,
    B: SquareMosaic<SHORT>,
>(mosaic: &ArrayMosaic<LONG, SHORT>, a: &A, b: &B) -> bool {
    forall|x: int, y: int|
        0 <= x < LONG && 0 <= y < SHORT ==> #[trigger] mosaic.spec_get(x, y) == side_by_side_cell(
            a,
            b,
            x,
            y,
        )
}

/// No tile lies in two cells of `mosaic`.
pub open spec fn tiles_used_once<const W: usize, const H: usize, M: RectangularMosaic<W, H>>(
    mosaic: &M,
) -> bool {
    forall|x1: int, y1: int, x2: int, y2: int|
        0 <= x1 < W && 0 <= y1 < H && 0 <= x2 < W && 0 <= y2 < H && !(x1 == x2 && y1 == y2)
            ==> (#[trigger] mosaic.spec_get(x1, y1)).tile != (#[trigger] mosaic.spec_get(
            x2,
            y2,
        )).tile
}

/// No tile lies in two cells of the rectangle that has `a` as its left half
/// and `b` as its right half.
pub open spec fn side_by_side_uses_tiles_once<
    const SHORT: usize,
    A: SquareMosaic<SHORT>,
    B: SquareMosaic<SHORT>,
>(a: &A, b: &B) -> bool {
    forall|x1: int, y1: int, x2: int, y2: int|
        0 <= x1 < 2 * SHORT && 0 <= y1 < SHORT && 0 <= x2 < 2 * SHORT && 0 <= y2 < SHORT && !(x1
            == x2 && y1 == y2) ==> (#[trigger] side_by_side_cell(a, b, x1, y1)).tile != (
        #[trigger] side_by_side_cell(a, b, x2, y2)).tile
}

/// The cells of the rectangle made of `a` and `b` that have been laid when
/// the rows above `y` are full and row `y` holds the first `xa` cells of `a`
/// and the first `xb` cells of `b`.
pub open spec fn laid_side_by_side<const SHORT: usize>(
    x: int,
    y: int,
    rows: int,
    xa: int,
    xb: int,
) -> bool {
    &&& 0 <= x < 2 * SHORT
    &&& 0 <= y < SHORT
    &&& y < rows || (y == rows && (x < xa || SHORT <= x < SHORT + xb))
}

/// Two mosaics that both have `a` and `b` as their halves are the same.
pub proof fn lemma_is_side_by_side_once<
    const SHORT: usize,
    const LONG: usize,
    A: SquareMosaic<SHORT>,
    B: SquareMosaic<SHORT>,
>(first: &ArrayMosaic<LONG, SHORT>, second: &ArrayMosaic<LONG, SHORT>, a: &A, b: &B)
    requires
        LONG == 2 * SHORT,
        is_side_by_side(first, a, b),
        is_side_by_side(second, a, b),
    ensures
        first == second,
{
    assert forall|y: int| 0 <= y < first.tiles@.len() implies first.tiles@[y] == second.tiles@[y] by {
        assert forall|x: int| 0 <= x < LONG implies first.tiles@[y]@[x] == second.tiles@[y]@[x] by {
            assert(first.spec_get(x, y) == second.spec_get(x, y));
        }
        assert(first.tiles@[y] =~= second.tiles@[y]);
    }
    assert(first.tiles =~= second.tiles);
}

/// The rectangle that has `a` as its left half and `b` as its right half, if
/// no tile lies in two of its cells.
pub open spec fn spec_combine_squares_horizontally<
    const SHORT: usize,
    const LONG: usize,
    A: SquareMosaic<SHORT>,
    B: SquareMosaic<SHORT>,
>(a: &A, b: &B) -> Option<ArrayMosaic<LONG, SHORT>> {
    if side_by_side_uses_tiles_once(a, b) {
        Some(mosaic_of::<LONG, SHORT>(|x: int, y: int| side_by_side_cell(a, b, x, y)))
    } else {
        None
    }
}

/// The rectangle that has `a` as its left half and `b` as its right half, if
/// no tile lies in two of its cells.
pub fn combine_squares_horizontally_to_rectangle<
    const SHORT: usize,
    const LONG: usize,
    A: SquareMosaic<SHORT>,
    B: SquareMosaic<SHORT>,
>(a: A, b: B) -> (combined: Option<ArrayMosaic<LONG, SHORT>>)
    requires
        LONG == 2 * SHORT,
    ensures
        combined == spec_combine_squares_horizontally::<SHORT, LONG, A, B>(&a, &b),
        combined is Some <==> side_by_side_uses_tiles_once(&a, &b),
        combined is Some ==> is_side_by_side(&combined->0, &a, &b),
        combined is Some ==> tiles_used_once(&combined->0),
{
    let mut marks = no_marks();
    let zero = RotatedTile::zero();
    let mut mosaic = ArrayMosaic { tiles: [[zero;LONG];SHORT] };
    let mut y: usize = 0;
    while y < SHORT
        invariant
            y <= SHORT,
            LONG == 2 * SHORT,
            mosaic.tiles@.len() == SHORT,
            marked(marks).len() == 256,
            forall|t: int|
                0 <= t < 256 ==> (#[trigger] marked(marks)[t] <==> exists|px: int, py: int|
                    laid_side_by_side::<SHORT>(px, py, y as int, 0, 0) && (
                    #[trigger] side_by_side_cell(&a, &b, px, py)).tile.0 == t),
            forall|x1: int, y1: int, x2: int, y2: int|
                laid_side_by_side::<SHORT>(x1, y1, y as int, 0, 0) && laid_side_by_side::<SHORT>(
                    x2,
                    y2,
                    y as int,
                    0,
                    0,
                ) && !(x1 == x2 && y1 == y2) ==> (#[trigger] side_by_side_cell(&a, &b, x1, y1)).tile
                    != (#[trigger] side_by_side_cell(&a, &b, x2, y2)).tile,
            forall|px: int, py: int|
                laid_side_by_side::<SHORT>(px, py, y as int, 0, 0) ==> #[trigger] mosaic.tiles@[py]@[px]
                    == side_by_side_cell(&a, &b, px, py),
        decreases SHORT - y,
    {
        let mut x: usize = 0;
        while x < SHORT
            invariant
                x <= SHORT,
                y < SHORT,
                LONG == 2 * SHORT,
                mosaic.tiles@.len() == SHORT,
                marked(marks).len() == 256,
                forall|t: int|
                    0 <= t < 256 ==> (#[trigger] marked(marks)[t] <==> exists|px: int, py: int|
                        laid_side_by_side::<SHORT>(px, py, y as int, x as int, x as int) && (
                        #[trigger] side_by_side_cell(&a, &b, px, py)).tile.0 == t),
                forall|x1: int, y1: int, x2: int, y2: int|
                    laid_side_by_side::<SHORT>(x1, y1, y as int, x as int, x as int)
                        && laid_side_by_side::<SHORT>(x2, y2, y as int, x as int, x as int) && !(x1
                        == x2 && y1 == y2) ==> (#[trigger] side_by_side_cell(&a, &b, x1, y1)).tile
                        != (#[trigger] side_by_side_cell(&a, &b, x2, y2)).tile,
                forall|px: int, py: int|
                    laid_side_by_side::<SHORT>(px, py, y as int, x as int, x as int)
                        ==> #[trigger] mosaic.tiles@[py]@[px] == side_by_side_cell(&a, &b, px, py),
            decreases SHORT - x,
        {
            let left = a.get(x, y);
            let ghost marks_before = marked(marks);
            let fresh = mark_tile(&mut marks, left);
            assert(side_by_side_cell(&a, &b, x as int, y as int) == left);
            if !fresh {
                proof {
                    let (px, py) = choose|px: int, py: int|
                        laid_side_by_side::<SHORT>(px, py, y as int, x as int, x as int) && (
                        #[trigger] side_by_side_cell(&a, &b, px, py)).tile.0 == left.tile.0;
                    assert(side_by_side_cell(&a, &b, px, py).tile == side_by_side_cell(
                        &a,
                        &b,
                        x as int,
                        y as int,
                    ).tile);
                }
                return None;
            }
            mosaic.tiles[y][x] = left;
            proof {
                assert forall|t: int| 0 <= t < 256 implies (#[trigger] marked(marks)[t] <==> exists|
                    px: int,
                    py: int,
                |
                    laid_side_by_side::<SHORT>(px, py, y as int, x + 1, x as int) && (
                    #[trigger] side_by_side_cell(&a, &b, px, py)).tile.0 == t) by {
                    if marked(marks)[t] {
                        if t == left.tile.0 {
                            assert(laid_side_by_side::<SHORT>(x as int, y as int, y as int, x + 1, x as int));
                        } else {
                            assert(marks_before[t]);
                            let (px, py) = choose|px: int, py: int|
                                laid_side_by_side::<SHORT>(px, py, y as int, x as int, x as int) && (
                                #[trigger] side_by_side_cell(&a, &b, px, py)).tile.0 == t;
                            assert(laid_side_by_side::<SHORT>(px, py, y as int, x + 1, x as int));
                        }
                    }
                    if exists|px: int, py: int|
                        laid_side_by_side::<SHORT>(px, py, y as int, x + 1, x as int) && (
                        #[trigger] side_by_side_cell(&a, &b, px, py)).tile.0 == t {
                        let (px, py) = choose|px: int, py: int|
                            laid_side_by_side::<SHORT>(px, py, y as int, x + 1, x as int) && (
                            #[trigger] side_by_side_cell(&a, &b, px, py)).tile.0 == t;
                        if !(px == x && py == y) {
                            assert(laid_side_by_side::<SHORT>(px, py, y as int, x as int, x as int));
                        }
                    }
                }
                assert forall|x1: int, y1: int, x2: int, y2: int|
                    laid_side_by_side::<SHORT>(x1, y1, y as int, x + 1, x as int)
                        && laid_side_by_side::<SHORT>(x2, y2, y as int, x + 1, x as int) && !(x1 == x2
                        && y1 == y2) implies (#[trigger] side_by_side_cell(&a, &b, x1, y1)).tile != (
                #[trigger] side_by_side_cell(&a, &b, x2, y2)).tile by {
                    if x1 == x && y1 == y {
                        assert(laid_side_by_side::<SHORT>(x2, y2, y as int, x as int, x as int));
                        assert(marks_before[side_by_side_cell(&a, &b, x2, y2).tile.0 as int]);
                    } else if x2 == x && y2 == y {
                        assert(laid_side_by_side::<SHORT>(x1, y1, y as int, x as int, x as int));
                        assert(marks_before[side_by_side_cell(&a, &b, x1, y1).tile.0 as int]);
                    } else {
                        assert(laid_side_by_side::<SHORT>(x1, y1, y as int, x as int, x as int));
                        assert(laid_side_by_side::<SHORT>(x2, y2, y as int, x as int, x as int));
                    }
                }
                assert forall|px: int, py: int|
                    laid_side_by_side::<SHORT>(px, py, y as int, x + 1, x as int) implies #[trigger] mosaic.tiles@[py]@[px]
                    == side_by_side_cell(&a, &b, px, py) by {
                    if !(px == x && py == y) {
                        assert(laid_side_by_side::<SHORT>(px, py, y as int, x as int, x as int));
                    }
                }
            }
            let right = b.get(x, y);
            let ghost marks_between = marked(marks);
            let fresh = mark_tile(&mut marks, right);
            assert(side_by_side_cell(&a, &b, x + SHORT, y as int) == right);
            if !fresh {
                proof {
                    let (px, py) = choose|px: int, py: int|
                        laid_side_by_side::<SHORT>(px, py, y as int, x + 1, x as int) && (
                        #[trigger] side_by_side_cell(&a, &b, px, py)).tile.0 == right.tile.0;
                    assert(side_by_side_cell(&a, &b, px, py).tile == side_by_side_cell(
                        &a,
                        &b,
                        x + SHORT,
                        y as int,
                    ).tile);
                }
                return None;
            }
            mosaic.tiles[y][x + SHORT] = right;
            proof {
                assert forall|t: int| 0 <= t < 256 implies (#[trigger] marked(marks)[t] <==> exists|
                    px: int,
                    py: int,
                |
                    laid_side_by_side::<SHORT>(px, py, y as int, x + 1, x + 1) && (
                    #[trigger] side_by_side_cell(&a, &b, px, py)).tile.0 == t) by {
                    if marked(marks)[t] {
                        if t == right.tile.0 {
                            assert(laid_side_by_side::<SHORT>(x + SHORT, y as int, y as int, x + 1, x + 1));
                        } else {
                            assert(marks_between[t]);
                            let (px, py) = choose|px: int, py: int|
                                laid_side_by_side::<SHORT>(px, py, y as int, x + 1, x as int) && (
                                #[trigger] side_by_side_cell(&a, &b, px, py)).tile.0 == t;
                            assert(laid_side_by_side::<SHORT>(px, py, y as int, x + 1, x + 1));
                        }
                    }
                    if exists|px: int, py: int|
                        laid_side_by_side::<SHORT>(px, py, y as int, x + 1, x + 1) && (
                        #[trigger] side_by_side_cell(&a, &b, px, py)).tile.0 == t {
                        let (px, py) = choose|px: int, py: int|
                            laid_side_by_side::<SHORT>(px, py, y as int, x + 1, x + 1) && (
                            #[trigger] side_by_side_cell(&a, &b, px, py)).tile.0 == t;
                        if !(px == x + SHORT && py == y) {
                            assert(laid_side_by_side::<SHORT>(px, py, y as int, x + 1, x as int));
                        }
                    }
                }
                assert forall|x1: int, y1: int, x2: int, y2: int|
                    laid_side_by_side::<SHORT>(x1, y1, y as int, x + 1, x + 1)
                        && laid_side_by_side::<SHORT>(x2, y2, y as int, x + 1, x + 1) && !(x1 == x2
                        && y1 == y2) implies (#[trigger] side_by_side_cell(&a, &b, x1, y1)).tile != (
                #[trigger] side_by_side_cell(&a, &b, x2, y2)).tile by {
                    if x1 == x + SHORT && y1 == y {
                        assert(laid_side_by_side::<SHORT>(x2, y2, y as int, x + 1, x as int));
                        assert(marks_between[side_by_side_cell(&a, &b, x2, y2).tile.0 as int]);
                    } else if x2 == x + SHORT && y2 == y {
                        assert(laid_side_by_side::<SHORT>(x1, y1, y as int, x + 1, x as int));
                        assert(marks_between[side_by_side_cell(&a, &b, x1, y1).tile.0 as int]);
                    } else {
                        assert(laid_side_by_side::<SHORT>(x1, y1, y as int, x + 1, x as int));
                        assert(laid_side_by_side::<SHORT>(x2, y2, y as int, x + 1, x as int));
                    }
                }
                assert forall|px: int, py: int|
                    laid_side_by_side::<SHORT>(px, py, y as int, x + 1, x + 1) implies #[trigger] mosaic.tiles@[py]@[px]
                    == side_by_side_cell(&a, &b, px, py) by {
                    if !(px == x + SHORT && py == y) {
                        assert(laid_side_by_side::<SHORT>(px, py, y as int, x + 1, x as int));
                    }
                }
            }
            x = x + 1;
        }
        proof {
            assert forall|px: int, py: int| #[trigger]
                laid_side_by_side::<SHORT>(px, py, y + 1, 0, 0) implies laid_side_by_side::<SHORT>(
                px,
                py,
                y as int,
                SHORT as int,
                SHORT as int,
            ) by {}
            assert forall|px: int, py: int| #[trigger]
                laid_side_by_side::<SHORT>(px, py, y as int, SHORT as int, SHORT as int) implies laid_side_by_side::<
                SHORT,
            >(px, py, y + 1, 0, 0) by {}
        }
        y = y + 1;
    }
    proof {
        assert forall|px: int, py: int| 0 <= px < 2 * SHORT && 0 <= py < SHORT implies #[trigger] laid_side_by_side::<
            SHORT,
        >(px, py, SHORT as int, 0, 0) by {}
        assert forall|x1: int, y1: int, x2: int, y2: int|
            0 <= x1 < LONG && 0 <= y1 < SHORT && 0 <= x2 < LONG && 0 <= y2 < SHORT && !(x1 == x2
                && y1 == y2) implies (#[trigger] mosaic.spec_get(x1, y1)).tile != (
        #[trigger] mosaic.spec_get(x2, y2)).tile by {
            assert(mosaic.tiles@[y1]@[x1] == side_by_side_cell(&a, &b, x1, y1));
            assert(mosaic.tiles@[y2]@[x2] == side_by_side_cell(&a, &b, x2, y2));
        }
    }
    proof {
        let made = mosaic_of::<LONG, SHORT>(|x: int, y: int| side_by_side_cell(&a, &b, x, y));
        lemma_mosaic_of::<LONG, SHORT>(|x: int, y: int| side_by_side_cell(&a, &b, x, y));
        assert(is_side_by_side(&mosaic, &a, &b));
        assert(is_side_by_side(&made, &a, &b));
        lemma_is_side_by_side_once(&mosaic, &made, &a, &b);
    }
    Some(mosaic)
}

/// The cell in column `x` of row `y` of the square that has `a` as its upper
/// half and `b` as its lower half.
pub open spec fn stacked_cell<
    const SHORT: usize,
    const LONG: usize,
    A: RectangularMosaic<LONG, SHORT>,
    B: RectangularMosaic<LONG, SHORT>,
>(
    a: &A,
    b: &B,
    x: int,
    y: int,
) -> RotatedTile {
    if y < SHORT {
        a.spec_get(x, y)
    } else {
        b.spec_get(x, y - SHORT)
    }
}

/// `mosaic` has `a` as its upper half and `b` as its lower half.
pub open spec fn is_stacked<
    const SHORT: usize,
    const LONG: usize,
    A: RectangularMosaic<LONG, SHORT>,
    B: RectangularMosaic<LONG, SHORT>,
>(mosaic: &ArrayMosaic<LONG, LONG>, a: &A, b: &B) -> bool {
    forall|x: int, y: int|
        0 <= x < LONG && 0 <= y < LONG ==> #[trigger] mosaic.spec_get(x, y) == stacked_cell(
            a,
            b,
            x,
            y,
        )
}

/// No tile lies in two cells of the square that has `a` as its upper half
/// and `b` as its lower half.
pub open spec fn stacked_uses_tiles_once<
    const SHORT: usize,
    const LONG: usize,
    A: RectangularMosaic<LONG, SHORT>,
    B: RectangularMosaic<LONG, SHORT>,
>(a: &A, b: &B) -> bool {
    forall|x1: int, y1: int, x2: int, y2: int|
        0 <= x1 < 2 * SHORT && 0 <= y1 < 2 * SHORT && 0 <= x2 < 2 * SHORT && 0 <= y2 < 2 * SHORT
            && !(x1 == x2 && y1 == y2) ==> (#[trigger] stacked_cell(a, b, x1, y1)).tile != (
        #[trigger] stacked_cell(a, b, x2, y2)).tile
}

/// The cells of the square made of `a` and `b` that have been laid when the
/// first `rows` rows of both are full and the next row of `a` holds its
/// first `xa` cells, the next row of `b` its first `xb` cells.
pub open spec fn laid_stacked<const SHORT: usize>(
    x: int,
    y: int,
    rows: int,
    xa: int,
    xb: int,
) -> bool {
    &&& 0 <= x < 2 * SHORT
    &&& 0 <= y < 2 * SHORT
    &&& y < rows || SHORT <= y < SHORT + rows || (y == rows && x < xa) || (y == SHORT + rows && x
        < xb)
}

/// Two mosaics that both have `a` and `b` as their halves are the same.
pub proof fn lemma_is_stacked_once<
    const SHORT: usize,
    const LONG: usize,
    A: RectangularMosaic<LONG, SHORT>,
    B: RectangularMosaic<LONG, SHORT>,
>(first: &ArrayMosaic<LONG, LONG>, second: &ArrayMosaic<LONG, LONG>, a: &A, b: &B)
    requires
        LONG == 2 * SHORT,
        is_stacked(first, a, b),
        is_stacked(second, a, b),
    ensures
        first == second,
{
    assert forall|y: int| 0 <= y < first.tiles@.len() implies first.tiles@[y] == second.tiles@[y] by {
        assert forall|x: int| 0 <= x < LONG implies first.tiles@[y]@[x] == second.tiles@[y]@[x] by {
            assert(first.spec_get(x, y) == second.spec_get(x, y));
        }
        assert(first.tiles@[y] =~= second.tiles@[y]);
    }
    assert(first.tiles =~= second.tiles);
}

/// The square that has `a` as its upper half and `b` as its lower half, if
/// no tile lies in two of its cells.
pub open spec fn spec_combine_rectangles_vertically<
    const SHORT: usize,
    const LONG: usize,
    A: RectangularMosaic<LONG, SHORT>,
    B: RectangularMosaic<LONG, SHORT>,
>(a: &A, b: &B) -> Option<ArrayMosaic<LONG, LONG>> {
    if stacked_uses_tiles_once(a, b) {
        Some(mosaic_of::<LONG, LONG>(|x: int, y: int| stacked_cell(a, b, x, y)))
    } else {
        None
    }
}

/// The square that has `a` as its upper half and `b` as its lower half, if
/// no tile lies in two of its cells.
pub fn combine_rectangles_vertically_to_square<
    const SHORT: usize,
    const LONG: usize,
    A: RectangularMosaic<LONG, SHORT>,
    B: RectangularMosaic<LONG, SHORT>,
>(a: A, b: B) -> (combined: Option<ArrayMosaic<LONG, LONG>>)
    requires
        LONG == 2 * SHORT,
    ensures
        combined == spec_combine_rectangles_vertically::<SHORT, LONG, A, B>(&a, &b),
        combined is Some <==> stacked_uses_tiles_once(&a, &b),
        combined is Some ==> is_stacked(&combined->0, &a, &b),
        combined is Some ==> tiles_used_once(&combined->0),
{
    let mut marks = no_marks();
    let zero = RotatedTile::zero();
    let mut mosaic = ArrayMosaic { tiles: [[zero;LONG];LONG] };
    let mut y: usize = 0;
    while y < SHORT
        invariant
            y <= SHORT,
            LONG == 2 * SHORT,
            mosaic.tiles@.len() == LONG,
            marked(marks).len() == 256,
            forall|t: int|
                0 <= t < 256 ==> (#[trigger] marked(marks)[t] <==> exists|px: int, py: int|
                    laid_stacked::<SHORT>(px, py, y as int, 0, 0) && (
                    #[trigger] stacked_cell(&a, &b, px, py)).tile.0 == t),
            forall|x1: int, y1: int, x2: int, y2: int|
                laid_stacked::<SHORT>(x1, y1, y as int, 0, 0) && laid_stacked::<SHORT>(
                    x2,
                    y2,
                    y as int,
                    0,
                    0,
                ) && !(x1 == x2 && y1 == y2) ==> (#[trigger] stacked_cell(&a, &b, x1, y1)).tile
                    != (#[trigger] stacked_cell(&a, &b, x2, y2)).tile,
            forall|px: int, py: int|
                laid_stacked::<SHORT>(px, py, y as int, 0, 0) ==> #[trigger] mosaic.tiles@[py]@[px]
                    == stacked_cell(&a, &b, px, py),
        decreases SHORT - y,
    {
        let mut x: usize = 0;
        while x < LONG
            invariant
                x <= LONG,
                y < SHORT,
                LONG == 2 * SHORT,
                mosaic.tiles@.len() == LONG,
                marked(marks).len() == 256,
                forall|t: int|
                    0 <= t < 256 ==> (#[trigger] marked(marks)[t] <==> exists|px: int, py: int|
                        laid_stacked::<SHORT>(px, py, y as int, x as int, x as int) && (
                        #[trigger] stacked_cell(&a, &b, px, py)).tile.0 == t),
                forall|x1: int, y1: int, x2: int, y2: int|
                    laid_stacked::<SHORT>(x1, y1, y as int, x as int, x as int)
                        && laid_stacked::<SHORT>(x2, y2, y as int, x as int, x as int) && !(x1
                        == x2 && y1 == y2) ==> (#[trigger] stacked_cell(&a, &b, x1, y1)).tile
                        != (#[trigger] stacked_cell(&a, &b, x2, y2)).tile,
                forall|px: int, py: int|
                    laid_stacked::<SHORT>(px, py, y as int, x as int, x as int)
                        ==> #[trigger] mosaic.tiles@[py]@[px] == stacked_cell(&a, &b, px, py),
            decreases LONG - x,
        {
            let left = a.get(x, y);
            let ghost marks_before = marked(marks);
            let fresh = mark_tile(&mut marks, left);
            assert(stacked_cell(&a, &b, x as int, y as int) == left);
            if !fresh {
                proof {
                    let (px, py) = choose|px: int, py: int|
                        laid_stacked::<SHORT>(px, py, y as int, x as int, x as int) && (
                        #[trigger] stacked_cell(&a, &b, px, py)).tile.0 == left.tile.0;
                    assert(stacked_cell(&a, &b, px, py).tile == stacked_cell(
                        &a,
                        &b,
                        x as int,
                        y as int,
                    ).tile);
                }
                return None;
            }
            mosaic.tiles[y][x] = left;
            proof {
                assert forall|t: int| 0 <= t < 256 implies (#[trigger] marked(marks)[t] <==> exists|
                    px: int,
                    py: int,
                |
                    laid_stacked::<SHORT>(px, py, y as int, x + 1, x as int) && (
                    #[trigger] stacked_cell(&a, &b, px, py)).tile.0 == t) by {
                    if marked(marks)[t] {
                        if t == left.tile.0 {
                            assert(laid_stacked::<SHORT>(x as int, y as int, y as int, x + 1, x as int));
                        } else {
                            assert(marks_before[t]);
                            let (px, py) = choose|px: int, py: int|
                                laid_stacked::<SHORT>(px, py, y as int, x as int, x as int) && (
                                #[trigger] stacked_cell(&a, &b, px, py)).tile.0 == t;
                            assert(laid_stacked::<SHORT>(px, py, y as int, x + 1, x as int));
                        }
                    }
                    if exists|px: int, py: int|
                        laid_stacked::<SHORT>(px, py, y as int, x + 1, x as int) && (
                        #[trigger] stacked_cell(&a, &b, px, py)).tile.0 == t {
                        let (px, py) = choose|px: int, py: int|
                            laid_stacked::<SHORT>(px, py, y as int, x + 1, x as int) && (
                            #[trigger] stacked_cell(&a, &b, px, py)).tile.0 == t;
                        if !(px == x && py == y) {
                            assert(laid_stacked::<SHORT>(px, py, y as int, x as int, x as int));
                        }
                    }
                }
                assert forall|x1: int, y1: int, x2: int, y2: int|
                    laid_stacked::<SHORT>(x1, y1, y as int, x + 1, x as int)
                        && laid_stacked::<SHORT>(x2, y2, y as int, x + 1, x as int) && !(x1 == x2
                        && y1 == y2) implies (#[trigger] stacked_cell(&a, &b, x1, y1)).tile != (
                #[trigger] stacked_cell(&a, &b, x2, y2)).tile by {
                    if x1 == x && y1 == y {
                        assert(laid_stacked::<SHORT>(x2, y2, y as int, x as int, x as int));
                        assert(marks_before[stacked_cell(&a, &b, x2, y2).tile.0 as int]);
                    } else if x2 == x && y2 == y {
                        assert(laid_stacked::<SHORT>(x1, y1, y as int, x as int, x as int));
                        assert(marks_before[stacked_cell(&a, &b, x1, y1).tile.0 as int]);
                    } else {
                        assert(laid_stacked::<SHORT>(x1, y1, y as int, x as int, x as int));
                        assert(laid_stacked::<SHORT>(x2, y2, y as int, x as int, x as int));
                    }
                }
                assert forall|px: int, py: int|
                    laid_stacked::<SHORT>(px, py, y as int, x + 1, x as int) implies #[trigger] mosaic.tiles@[py]@[px]
                    == stacked_cell(&a, &b, px, py) by {
                    if !(px == x && py == y) {
                        assert(laid_stacked::<SHORT>(px, py, y as int, x as int, x as int));
                    }
                }
            }
            let right = b.get(x, y);
            let ghost marks_between = marked(marks);
            let fresh = mark_tile(&mut marks, right);
            assert(stacked_cell(&a, &b, x as int, y + SHORT) == right);
            if !fresh {
                proof {
                    let (px, py) = choose|px: int, py: int|
                        laid_stacked::<SHORT>(px, py, y as int, x + 1, x as int) && (
                        #[trigger] stacked_cell(&a, &b, px, py)).tile.0 == right.tile.0;
                    assert(stacked_cell(&a, &b, px, py).tile == stacked_cell(
                        &a,
                        &b,
                        x as int,
                        y + SHORT,
                    ).tile);
                }
                return None;
            }
            mosaic.tiles[y + SHORT][x] = right;
            proof {
                assert forall|t: int| 0 <= t < 256 implies (#[trigger] marked(marks)[t] <==> exists|
                    px: int,
                    py: int,
                |
                    laid_stacked::<SHORT>(px, py, y as int, x + 1, x + 1) && (
                    #[trigger] stacked_cell(&a, &b, px, py)).tile.0 == t) by {
                    if marked(marks)[t] {
                        if t == right.tile.0 {
                            assert(laid_stacked::<SHORT>(x as int, y + SHORT, y as int, x + 1, x + 1));
                        } else {
                            assert(marks_between[t]);
                            let (px, py) = choose|px: int, py: int|
                                laid_stacked::<SHORT>(px, py, y as int, x + 1, x as int) && (
                                #[trigger] stacked_cell(&a, &b, px, py)).tile.0 == t;
                            assert(laid_stacked::<SHORT>(px, py, y as int, x + 1, x + 1));
                        }
                    }
                    if exists|px: int, py: int|
                        laid_stacked::<SHORT>(px, py, y as int, x + 1, x + 1) && (
                        #[trigger] stacked_cell(&a, &b, px, py)).tile.0 == t {
                        let (px, py) = choose|px: int, py: int|
                            laid_stacked::<SHORT>(px, py, y as int, x + 1, x + 1) && (
                            #[trigger] stacked_cell(&a, &b, px, py)).tile.0 == t;
                        if !(px == x && py == y + SHORT) {
                            assert(laid_stacked::<SHORT>(px, py, y as int, x + 1, x as int));
                        }
                    }
                }
                assert forall|x1: int, y1: int, x2: int, y2: int|
                    laid_stacked::<SHORT>(x1, y1, y as int, x + 1, x + 1)
                        && laid_stacked::<SHORT>(x2, y2, y as int, x + 1, x + 1) && !(x1 == x2
                        && y1 == y2) implies (#[trigger] stacked_cell(&a, &b, x1, y1)).tile != (
                #[trigger] stacked_cell(&a, &b, x2, y2)).tile by {
                    if x1 == x && y1 == y + SHORT {
                        assert(laid_stacked::<SHORT>(x2, y2, y as int, x + 1, x as int));
                        assert(marks_between[stacked_cell(&a, &b, x2, y2).tile.0 as int]);
                    } else if x2 == x && y2 == y + SHORT {
                        assert(laid_stacked::<SHORT>(x1, y1, y as int, x + 1, x as int));
                        assert(marks_between[stacked_cell(&a, &b, x1, y1).tile.0 as int]);
                    } else {
                        assert(laid_stacked::<SHORT>(x1, y1, y as int, x + 1, x as int));
                        assert(laid_stacked::<SHORT>(x2, y2, y as int, x + 1, x as int));
                    }
                }
                assert forall|px: int, py: int|
                    laid_stacked::<SHORT>(px, py, y as int, x + 1, x + 1) implies #[trigger] mosaic.tiles@[py]@[px]
                    == stacked_cell(&a, &b, px, py) by {
                    if !(px == x && py == y + SHORT) {
                        assert(laid_stacked::<SHORT>(px, py, y as int, x + 1, x as int));
                    }
                }
            }
            x = x + 1;
        }
        proof {
            assert forall|px: int, py: int| #[trigger]
                laid_stacked::<SHORT>(px, py, y + 1, 0, 0) implies laid_stacked::<SHORT>(
                px,
                py,
                y as int,
                LONG as int,
                LONG as int,
            ) by {}
            assert forall|px: int, py: int| #[trigger]
                laid_stacked::<SHORT>(px, py, y as int, LONG as int, LONG as int) implies laid_stacked::<
                SHORT,
            >(px, py, y + 1, 0, 0) by {}
        }
        y = y + 1;
    }
    proof {
        assert forall|px: int, py: int|
            0 <= px < 2 * SHORT && 0 <= py < 2 * SHORT implies #[trigger] laid_stacked::<SHORT>(
            px,
            py,
            SHORT as int,
            0,
            0,
        ) by {}
        assert forall|x1: int, y1: int, x2: int, y2: int|
            0 <= x1 < LONG && 0 <= y1 < LONG && 0 <= x2 < LONG && 0 <= y2 < LONG && !(x1 == x2
                && y1 == y2) implies (#[trigger] mosaic.spec_get(x1, y1)).tile != (
        #[trigger] mosaic.spec_get(x2, y2)).tile by {
            assert(mosaic.tiles@[y1]@[x1] == stacked_cell(&a, &b, x1, y1));
            assert(mosaic.tiles@[y2]@[x2] == stacked_cell(&a, &b, x2, y2));
        }
    }
    proof {
        let made = mosaic_of::<LONG, LONG>(|x: int, y: int| stacked_cell(&a, &b, x, y));
        lemma_mosaic_of::<LONG, LONG>(|x: int, y: int| stacked_cell(&a, &b, x, y));
        assert(is_stacked(&mosaic, &a, &b));
        assert(is_stacked(&made, &a, &b));
        lemma_is_stacked_once(&mosaic, &made, &a, &b);
    }
    Some(mosaic)
}

/// Two squares laid side by side give a rectangle that has them as its
/// halves, and in which no tile lies twice.
pub proof fn lemma_combined_squares<
    const SHORT: usize,
    const LONG: usize,
    A: SquareMosaic<SHORT>,
    B: SquareMosaic<SHORT>,
>(a: &A, b: &B)
    requires
        LONG == 2 * SHORT,
        spec_combine_squares_horizontally::<SHORT, LONG, A, B>(a, b) is Some,
    ensures
        side_by_side_uses_tiles_once(a, b),
        is_side_by_side(&spec_combine_squares_horizontally::<SHORT, LONG, A, B>(a, b)->0, a, b),
        tiles_used_once(&spec_combine_squares_horizontally::<SHORT, LONG, A, B>(a, b)->0),
{
    let made = mosaic_of::<LONG, SHORT>(|x: int, y: int| side_by_side_cell(a, b, x, y));
    lemma_mosaic_of::<LONG, SHORT>(|x: int, y: int| side_by_side_cell(a, b, x, y));
    assert forall|x1: int, y1: int, x2: int, y2: int|
        0 <= x1 < LONG && 0 <= y1 < SHORT && 0 <= x2 < LONG && 0 <= y2 < SHORT && !(x1 == x2 && y1
            == y2) implies (#[trigger] made.spec_get(x1, y1)).tile != (#[trigger] made.spec_get(
        x2,
        y2,
    )).tile by {
        assert(made.spec_get(x1, y1) == side_by_side_cell(a, b, x1, y1));
        assert(made.spec_get(x2, y2) == side_by_side_cell(a, b, x2, y2));
    }
}

/// Two rectangles laid one above the other give a square that has them as
/// its halves, and in which no tile lies twice.
pub proof fn lemma_combined_rectangles<
    const SHORT: usize,
    const LONG: usize,
    A: RectangularMosaic<LONG, SHORT>,
    B: RectangularMosaic<LONG, SHORT>,
>(a: &A, b: &B)
    requires
        LONG == 2 * SHORT,
        spec_combine_rectangles_vertically::<SHORT, LONG, A, B>(a, b) is Some,
    ensures
        stacked_uses_tiles_once(a, b),
        is_stacked(&spec_combine_rectangles_vertically::<SHORT, LONG, A, B>(a, b)->0, a, b),
        tiles_used_once(&spec_combine_rectangles_vertically::<SHORT, LONG, A, B>(a, b)->0),
{
    let made = mosaic_of::<LONG, LONG>(|x: int, y: int| stacked_cell(a, b, x, y));
    lemma_mosaic_of::<LONG, LONG>(|x: int, y: int| stacked_cell(a, b, x, y));
    assert forall|x1: int, y1: int, x2: int, y2: int|
        0 <= x1 < LONG && 0 <= y1 < LONG && 0 <= x2 < LONG && 0 <= y2 < LONG && !(x1 == x2 && y1
            == y2) implies (#[trigger] made.spec_get(x1, y1)).tile != (#[trigger] made.spec_get(
        x2,
        y2,
    )).tile by {
        assert(made.spec_get(x1, y1) == stacked_cell(a, b, x1, y1));
        assert(made.spec_get(x2, y2) == stacked_cell(a, b, x2, y2));
    }
}

} // verus!
