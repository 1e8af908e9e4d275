use crate::edge::{ArrayEdge, Comparison};
use crate::rectangular::{
    HorizontalSide, RectangularRotation, RectangularSide, SideExt, VerticalSide,
};
use crate::{Color, RotatedTile, Rotation, Side, Tile};
use vstd::prelude::*;

verus! {

/// What a mosaic has to offer to be stored and compared as a value.
pub trait MosaicBounds: Clone + core::fmt::Debug + PartialEq + Eq + PartialOrd + Ord + core::hash::Hash {

}

impl<T: Clone + core::fmt::Debug + PartialEq + Eq + PartialOrd + Ord + core::hash::Hash> MosaicBounds for T {

}

/// A grid of rotated tiles, `W` cells wide and `H` cells high. Columns are
/// counted from the left, rows from the top.
pub trait RectangularMosaic<const W: usize, const H: usize>: Sized {
    /// The rotated tile in column `x` of row `y`.
    spec fn spec_get(&self, x: int, y: int) -> RotatedTile;

    fn width(&self) -> (width: usize)
        ensures
            width == W,
    ;

    fn height(&self) -> (height: usize)
        ensures
            height == H,
    ;

    fn get(&self, x: usize, y: usize) -> (tile: RotatedTile)
        requires
            x < W,
            y < H,
        ensures
            tile == self.spec_get(x as int, y as int),
    ;
}

/// The colors along a vertical side: the right side read from the top
/// down, the left side from the bottom up.
pub open spec fn spec_vertical_edge<const W: usize, const H: usize, M: RectangularMosaic<W, H>>(
    mosaic: &M,
    side: VerticalSide,
) -> Seq<Color> {
    match side {
        VerticalSide::Right => Seq::new(
            H as nat,
            |y: int| mosaic.spec_get(W - 1, y).spec_color(Side::Right),
        ),
        VerticalSide::Left => Seq::new(
            H as nat,
            |y: int| mosaic.spec_get(0, H - 1 - y).spec_color(Side::Left),
        ),
    }
}

/// The colors along a horizontal side: the top side read from the left
/// to the right, the bottom side from the right to the left.
pub open spec fn spec_horizontal_edge<const W: usize, const H: usize, M: RectangularMosaic<W, H>>(
    mosaic: &M,
    side: HorizontalSide,
) -> Seq<Color> {
    match side {
        HorizontalSide::Top => Seq::new(
            W as nat,
            |x: int| mosaic.spec_get(x, 0).spec_color(Side::Top),
        ),
        HorizontalSide::Bottom => Seq::new(
            W as nat,
            |x: int| mosaic.spec_get(W - 1 - x, H - 1).spec_color(Side::Bottom),
        ),
    }
}

/// The colors along the right side, read downwards, or along the left
/// side, read upwards.
pub fn vertical_edge<const W: usize, const H: usize, M: RectangularMosaic<W, H>>(
    mosaic: &M,
    side: VerticalSide,
) -> (edge: ArrayEdge<H>)
    requires
        H > 0 ==> W > 0,
    ensures
        edge@ == spec_vertical_edge(mosaic, side),
{
    let mut edge = ArrayEdge::filled(Color::A);
    let mut y: usize = 0;
    while y < H
        invariant
            y <= H,
            H > 0 ==> W > 0,
            edge@.len() == H,
            forall|i: int| 0 <= i < y ==> #[trigger] edge@[i] == spec_vertical_edge(mosaic, side)[i],
        decreases H - y,
    {
        let color = match side {
            VerticalSide::Right => mosaic.get(W - 1, y).color(Side::Right),
            VerticalSide::Left => mosaic.get(0, H - 1 - y).color(Side::Left),
        };
        edge.set(y, color);
        y = y + 1;
    }
    assert(edge@ =~= spec_vertical_edge(mosaic, side));
    edge
}

/// The colors along the top side, read to the right, or along the bottom
/// side, read to the left.
pub fn horizontal_edge<const W: usize, const H: usize, M: RectangularMosaic<W, H>>(
    mosaic: &M,
    side: HorizontalSide,
) -> (edge: ArrayEdge<W>)
    requires
        W > 0 ==> H > 0,
    ensures
        edge@ == spec_horizontal_edge(mosaic, side),
{
    let mut edge = ArrayEdge::filled(Color::A);
    let mut x: usize = 0;
    while x < W
        invariant
            x <= W,
            W > 0 ==> H > 0,
            edge@.len() == W,
            forall|i: int|
                0 <= i < x ==> #[trigger] edge@[i] == spec_horizontal_edge(mosaic, side)[i],
        decreases W - x,
    {
        let color = match side {
            HorizontalSide::Bottom => mosaic.get(W - 1 - x, H - 1).color(Side::Bottom),
            HorizontalSide::Top => mosaic.get(x, 0).color(Side::Top),
        };
        edge.set(x, color);
        x = x + 1;
    }
    assert(edge@ =~= spec_horizontal_edge(mosaic, side));
    edge
}

/// The same grid, held cell by cell.
pub fn to_array_mosaic<const W: usize, const H: usize, M: RectangularMosaic<W, H>>(
    source: &M,
) -> (mosaic: ArrayMosaic<W, H>)
    ensures
        same_tiles(&mosaic, source),
{
    let zero = RotatedTile::zero();
    let mut result = ArrayMosaic { tiles: [[zero;W];H] };
    let mut y: usize = 0;
    while y < H
        invariant
            y <= H,
            result.tiles@.len() == H,
            forall|i: int, j: int|
                0 <= i < W && 0 <= j < y ==> #[trigger] result.tiles@[j]@[i] == source.spec_get(
                    i,
                    j,
                ),
        decreases H - y,
    {
        let mut x: usize = 0;
        while x < W
            invariant
                x <= W,
                y < H,
                result.tiles@.len() == H,
                forall|i: int, j: int|
                    0 <= i < W && 0 <= j < y ==> #[trigger] result.tiles@[j]@[i]
                        == source.spec_get(i, j),
                forall|i: int|
                    0 <= i < x ==> #[trigger] result.tiles@[y as int]@[i] == source.spec_get(
                        i,
                        y as int,
                    ),
            decreases W - x,
        {
            result.tiles[y][x] = source.get(x, y);
            x = x + 1;
        }
        y = y + 1;
    }
    result
}

/// Two mosaics of one size show the same rotated tile in every cell.
pub open spec fn same_tiles<
    const W: usize,
    const H: usize,
    A: RectangularMosaic<W, H>,
    B: RectangularMosaic<W, H>,
>(a: &A, b: &B) -> bool {
    forall|x: int, y: int|
        0 <= x < W && 0 <= y < H ==> #[trigger] a.spec_get(x, y) == b.spec_get(x, y)
}

/// A row of cells that holds `cells(x)` in each column `x` below `count`.
pub open spec fn filled_row<const W: usize>(cells: spec_fn(int) -> RotatedTile, count: nat) -> [RotatedTile; W]
    decreases count,
{
    if count == 0 {
        vstd::pervasive::arbitrary()
    } else {
        vstd::array::spec_array_update(
            filled_row::<W>(cells, (count - 1) as nat),
            count - 1,
            cells(count - 1),
        )
    }
}

/// Rows of cells that hold `cells(x, y)` in each column `x` of each row `y`
/// below `count`.
pub open spec fn filled_rows<const W: usize, const H: usize>(
    cells: spec_fn(int, int) -> RotatedTile,
    count: nat,
) -> [[RotatedTile; W]; H]
    decreases count,
{
    if count == 0 {
        vstd::pervasive::arbitrary()
    } else {
        vstd::array::spec_array_update(
            filled_rows::<W, H>(cells, (count - 1) as nat),
            count - 1,
            filled_row::<W>(|x: int| cells(x, count - 1), W as nat),
        )
    }
}

/// The mosaic that holds `cells(x, y)` in column `x` of row `y`.
pub open spec fn mosaic_of<const W: usize, const H: usize>(
    cells: spec_fn(int, int) -> RotatedTile,
) -> ArrayMosaic<W, H> {
    ArrayMosaic { tiles: filled_rows::<W, H>(cells, H as nat) }
}

proof fn lemma_filled_row<const W: usize>(cells: spec_fn(int) -> RotatedTile, count: nat)
    requires
        count <= W,
    ensures
        forall|x: int| 0 <= x < count ==> #[trigger] filled_row::<W>(cells, count)@[x] == cells(x),
    decreases count,
{
    if count > 0 {
        lemma_filled_row::<W>(cells, (count - 1) as nat);
        let earlier = filled_row::<W>(cells, (count - 1) as nat);
        let filled = filled_row::<W>(cells, count);
        assert(earlier@.len() == W);
        assert(filled@ == earlier@.update(count - 1, cells(count - 1)));
        assert forall|x: int| 0 <= x < count implies #[trigger] filled@[x] == cells(x) by {
            if x < count - 1 {
                assert(earlier@[x] == cells(x));
            }
        }
    }
}

proof fn lemma_filled_rows<const W: usize, const H: usize>(
    cells: spec_fn(int, int) -> RotatedTile,
    count: nat,
)
    requires
        count <= H,
    ensures
        forall|x: int, y: int|
            0 <= x < W && 0 <= y < count ==> #[trigger] filled_rows::<W, H>(cells, count)@[y]@[x]
                == cells(x, y),
    decreases count,
{
    if count > 0 {
        lemma_filled_rows::<W, H>(cells, (count - 1) as nat);
        let row_cells = |x: int| cells(x, count - 1);
        lemma_filled_row::<W>(row_cells, W as nat);
        let row = filled_row::<W>(row_cells, W as nat);
        let earlier = filled_rows::<W, H>(cells, (count - 1) as nat);
        let filled = filled_rows::<W, H>(cells, count);
        assert(earlier@.len() == H);
        assert(filled@ == earlier@.update(count - 1, row));
        assert forall|x: int, y: int| 0 <= x < W && 0 <= y < count implies #[trigger] filled@[y]@[x]
            == cells(x, y) by {
            if y < count - 1 {
                assert(earlier@[y]@[x] == cells(x, y));
            } else {
                assert(row@[x] == row_cells(x));
            }
        }
    }
}

/// The mosaic made of given cells holds these cells.
pub proof fn lemma_mosaic_of<const W: usize, const H: usize>(
    cells: spec_fn(int, int) -> RotatedTile,
)
    ensures
        forall|x: int, y: int|
            0 <= x < W && 0 <= y < H ==> #[trigger] mosaic_of::<W, H>(cells).spec_get(x, y)
                == cells(x, y),
{
    lemma_filled_rows::<W, H>(cells, H as nat);
}

/// The rotated tiles of a mosaic, row by row.
pub open spec fn grid<const W: usize, const H: usize, M: RectangularMosaic<W, H>>(mosaic: &M) -> Seq<
    Seq<RotatedTile>,
> {
    Seq::new(H as nat, |y: int| Seq::new(W as nat, |x: int| mosaic.spec_get(x, y)))
}

/// Two mosaics show the same rotated tile in every cell exactly if their
/// grids are the same.
pub proof fn lemma_same_tiles_is_same_grid<
    const W: usize,
    const H: usize,
    A: RectangularMosaic<W, H>,
    B: RectangularMosaic<W, H>,
>(a: &A, b: &B)
    ensures
        same_tiles(a, b) <==> grid(a) == grid(b),
{
    if same_tiles(a, b) {
        assert forall|y: int| 0 <= y < H implies #[trigger] grid(a)[y] == grid(b)[y] by {
            assert(grid(a)[y] =~= grid(b)[y]);
        }
        assert(grid(a) =~= grid(b));
    }
    if grid(a) == grid(b) {
        assert forall|x: int, y: int| 0 <= x < W && 0 <= y < H implies #[trigger] a.spec_get(x, y)
            == b.spec_get(x, y) by {
            assert(grid(a)[y][x] == a.spec_get(x, y));
            assert(grid(b)[y][x] == b.spec_get(x, y));
        }
    }
}

/// Two mosaics that show the same rotated tile in every cell show the same
/// colors along every side.
pub proof fn lemma_same_tiles_show_same_edges<
    const W: usize,
    const H: usize,
    A: RectangularMosaic<W, H>,
    B: RectangularMosaic<W, H>,
>(a: &A, b: &B)
    requires
        same_tiles(a, b),
        (W > 0) == (H > 0),
    ensures
        forall|side: VerticalSide| #[trigger]
            spec_vertical_edge(a, side) == spec_vertical_edge(b, side),
        forall|side: HorizontalSide| #[trigger]
            spec_horizontal_edge(a, side) == spec_horizontal_edge(b, side),
{
    assert forall|side: VerticalSide| #[trigger]
        spec_vertical_edge(a, side) == spec_vertical_edge(b, side) by {
        assert forall|y: int| 0 <= y < H implies #[trigger] spec_vertical_edge(a, side)[y]
            == spec_vertical_edge(b, side)[y] by {
            assert(a.spec_get(W - 1, y) == b.spec_get(W - 1, y));
            assert(a.spec_get(0, H - 1 - y) == b.spec_get(0, H - 1 - y));
        }
        assert(spec_vertical_edge(a, side) =~= spec_vertical_edge(b, side));
    }
    assert forall|side: HorizontalSide| #[trigger]
        spec_horizontal_edge(a, side) == spec_horizontal_edge(b, side) by {
        assert forall|x: int| 0 <= x < W implies #[trigger] spec_horizontal_edge(a, side)[x]
            == spec_horizontal_edge(b, side)[x] by {
            assert(a.spec_get(x, 0) == b.spec_get(x, 0));
            assert(a.spec_get(W - 1 - x, H - 1) == b.spec_get(W - 1 - x, H - 1));
        }
        assert(spec_horizontal_edge(a, side) =~= spec_horizontal_edge(b, side));
    }
}

/// Whether two mosaics of one size show the same rotated tile in every cell.
pub fn tiles_equal<
    const W: usize,
    const H: usize,
    A: RectangularMosaic<W, H>,
    B: RectangularMosaic<W, H>,
>(a: &A, b: &B) -> (equal: bool)
    ensures
        equal == same_tiles(a, b),
{
    let mut y: usize = 0;
    while y < H
        invariant
            y <= H,
            forall|i: int, j: int|
                0 <= i < W && 0 <= j < y ==> #[trigger] a.spec_get(i, j) == b.spec_get(i, j),
        decreases H - y,
    {
        let mut x: usize = 0;
        while x < W
            invariant
                x <= W,
                y < H,
                forall|i: int, j: int|
                    0 <= i < W && 0 <= j < y ==> #[trigger] a.spec_get(i, j) == b.spec_get(i, j),
                forall|i: int|
                    0 <= i < x ==> #[trigger] a.spec_get(i, y as int) == b.spec_get(i, y as int),
            decreases W - x,
        {
            if a.get(x, y) != b.get(x, y) {
                return false;
            }
            x = x + 1;
        }
        y = y + 1;
    }
    true
}

/// The cell in column `x1` of row `y1` comes before the one in column `x2` of
/// row `y2` when the cells are read row by row.
pub open spec fn cell_before(x1: int, y1: int, x2: int, y2: int) -> bool {
    y1 < y2 || (y1 == y2 && x1 < x2)
}

/// Two mosaics show the same rotated tile in every cell before the one in
/// column `x` of row `y`, and different ones in that cell.
pub open spec fn tiles_differ_first_at<
    const W: usize,
    const H: usize,
    A: RectangularMosaic<W, H>,
    B: RectangularMosaic<W, H>,
>(a: &A, b: &B, x: int, y: int) -> bool {
    &&& 0 <= x < W
    &&& 0 <= y < H
    &&& a.spec_get(x, y) != b.spec_get(x, y)
    &&& forall|i: int, j: int|
        0 <= i < W && 0 <= j < H && cell_before(i, j, x, y) ==> #[trigger] a.spec_get(i, j)
            == b.spec_get(i, j)
}

/// The order of mosaics of one size: by the first cell, read row by row, in
/// which they differ, rotated tiles taken by tile number and then rotation.
pub open spec fn tiles_less<
    const W: usize,
    const H: usize,
    A: RectangularMosaic<W, H>,
    B: RectangularMosaic<W, H>,
>(a: &A, b: &B) -> bool {
    exists|x: int, y: int| #[trigger]
        tiles_differ_first_at(a, b, x, y) && a.spec_get(x, y).spec_rank() < b.spec_get(
            x,
            y,
        ).spec_rank()
}

/// Of two mosaics that differ, one comes before the other, and not the other
/// before it.
pub proof fn lemma_tiles_less_asymmetric<
    const W: usize,
    const H: usize,
    A: RectangularMosaic<W, H>,
    B: RectangularMosaic<W, H>,
>(a: &A, b: &B)
    requires
        tiles_less(a, b),
    ensures
        !same_tiles(a, b),
        !tiles_less(b, a),
{
    let (x, y) = choose|x: int, y: int| #[trigger]
        tiles_differ_first_at(a, b, x, y) && a.spec_get(x, y).spec_rank() < b.spec_get(
            x,
            y,
        ).spec_rank();
    if tiles_less(b, a) {
        let (i, j) = choose|i: int, j: int| #[trigger]
            tiles_differ_first_at(b, a, i, j) && b.spec_get(i, j).spec_rank() < a.spec_get(
                i,
                j,
            ).spec_rank();
        if cell_before(i, j, x, y) {
            assert(a.spec_get(i, j) == b.spec_get(i, j));
        } else if cell_before(x, y, i, j) {
            assert(b.spec_get(x, y) == a.spec_get(x, y));
        }
    }
}

/// The order of mosaics is transitive.
pub proof fn lemma_tiles_less_transitive<
    const W: usize,
    const H: usize,
    A: RectangularMosaic<W, H>,
    B: RectangularMosaic<W, H>,
    C: RectangularMosaic<W, H>,
>(a: &A, b: &B, c: &C)
    requires
        tiles_less(a, b),
        tiles_less(b, c),
    ensures
        tiles_less(a, c),
{
    let (x, y) = choose|x: int, y: int| #[trigger]
        tiles_differ_first_at(a, b, x, y) && a.spec_get(x, y).spec_rank() < b.spec_get(
            x,
            y,
        ).spec_rank();
    let (i, j) = choose|i: int, j: int| #[trigger]
        tiles_differ_first_at(b, c, i, j) && b.spec_get(i, j).spec_rank() < c.spec_get(
            i,
            j,
        ).spec_rank();
    if cell_before(i, j, x, y) {
        assert(a.spec_get(i, j) == b.spec_get(i, j));
        assert forall|u: int, v: int|
            0 <= u < W && 0 <= v < H && cell_before(u, v, i, j) implies #[trigger] a.spec_get(u, v)
            == c.spec_get(u, v) by {
            assert(a.spec_get(u, v) == b.spec_get(u, v));
            assert(b.spec_get(u, v) == c.spec_get(u, v));
        }
        assert(tiles_differ_first_at(a, c, i, j));
    } else {
        if i != x || j != y {
            assert(b.spec_get(x, y) == c.spec_get(x, y));
        }
        assert forall|u: int, v: int|
            0 <= u < W && 0 <= v < H && cell_before(u, v, x, y) implies #[trigger] a.spec_get(u, v)
            == c.spec_get(u, v) by {
            assert(a.spec_get(u, v) == b.spec_get(u, v));
            assert(b.spec_get(u, v) == c.spec_get(u, v));
        }
        assert(tiles_differ_first_at(a, c, x, y));
    }
}

/// Where a mosaic stands to another in the order of mosaics.
pub fn tiles_compare<
    const W: usize,
    const H: usize,
    A: RectangularMosaic<W, H>,
    B: RectangularMosaic<W, H>,
>(a: &A, b: &B) -> (comparison: Comparison)
    ensures
        comparison == Comparison::Less <==> tiles_less(a, b),
        comparison == Comparison::Equal <==> same_tiles(a, b),
        comparison == Comparison::Greater <==> tiles_less(b, a),
{
    let mut y: usize = 0;
    while y < H
        invariant
            y <= H,
            forall|i: int, j: int|
                0 <= i < W && 0 <= j < y ==> #[trigger] a.spec_get(i, j) == b.spec_get(i, j),
        decreases H - y,
    {
        let mut x: usize = 0;
        while x < W
            invariant
                x <= W,
                y < H,
                forall|i: int, j: int|
                    0 <= i < W && 0 <= j < y ==> #[trigger] a.spec_get(i, j) == b.spec_get(i, j),
                forall|i: int|
                    0 <= i < x ==> #[trigger] a.spec_get(i, y as int) == b.spec_get(i, y as int),
            decreases W - x,
        {
            let mine = a.get(x, y).rank();
            let theirs = b.get(x, y).rank();
            if mine < theirs {
                proof {
                    assert(tiles_differ_first_at(a, b, x as int, y as int));
                    lemma_tiles_less_asymmetric(a, b);
                }
                return Comparison::Less;
            }
            if theirs < mine {
                proof {
                    assert(tiles_differ_first_at(b, a, x as int, y as int));
                    lemma_tiles_less_asymmetric(b, a);
                }
                return Comparison::Greater;
            }
            x = x + 1;
        }
        y = y + 1;
    }
    proof {
        assert(same_tiles(a, b));
        assert(same_tiles(b, a));
        if tiles_less(a, b) {
            lemma_tiles_less_asymmetric(a, b);
        }
        if tiles_less(b, a) {
            lemma_tiles_less_asymmetric(b, a);
        }
    }
    Comparison::Equal
}

/// A mosaic that is as wide as it is high.
pub trait SquareMosaic<const N: usize>: RectangularMosaic<N, N> {

}

/// The colors along `side` of a square mosaic, read clockwise.
pub open spec fn spec_edge<const N: usize, M: SquareMosaic<N>>(mosaic: &M, side: Side) -> Seq<
    Color,
> {
    match side {
        Side::Right => spec_vertical_edge(mosaic, VerticalSide::Right),
        Side::Top => spec_horizontal_edge(mosaic, HorizontalSide::Top),
        Side::Left => spec_vertical_edge(mosaic, VerticalSide::Left),
        Side::Bottom => spec_horizontal_edge(mosaic, HorizontalSide::Bottom),
    }
}

/// The colors along `side` of a square mosaic, read clockwise.
pub fn edge<const N: usize, M: SquareMosaic<N>>(mosaic: &M, side: Side) -> (edge: ArrayEdge<N>)
    ensures
        edge@ == spec_edge(mosaic, side),
{
    match side.to_rectangular() {
        RectangularSide::Vertical(side) => vertical_edge(mosaic, side),
        RectangularSide::Horizontal(side) => horizontal_edge(mosaic, side),
    }
}

/// The edges and the cell-by-cell copy of a mosaic, as methods.
pub trait RectangularMosaicExt<const W: usize, const H: usize>: RectangularMosaic<W, H> {
    /// The colors along the right side, read downwards, or along the left
    /// side, read upwards.
    fn vertical_edge(&self, side: VerticalSide) -> (edge: ArrayEdge<H>)
        requires
            H > 0 ==> W > 0,
        ensures
            edge@ == spec_vertical_edge(self, side),
    ;

    /// The colors along the top side, read to the right, or along the bottom
    /// side, read to the left.
    fn horizontal_edge(&self, side: HorizontalSide) -> (edge: ArrayEdge<W>)
        requires
            W > 0 ==> H > 0,
        ensures
            edge@ == spec_horizontal_edge(self, side),
    ;

    /// The same grid, held cell by cell.
    fn to_array_mosaic(&self) -> (mosaic: ArrayMosaic<W, H>)
        ensures
            same_tiles(&mosaic, self),
    ;
}

impl<const W: usize, const H: usize, M: RectangularMosaic<W, H>> RectangularMosaicExt<W, H> for M {
    fn vertical_edge(&self, side: VerticalSide) -> (edge: ArrayEdge<H>) {
        vertical_edge(self, side)
    }

    fn horizontal_edge(&self, side: HorizontalSide) -> (edge: ArrayEdge<W>) {
        horizontal_edge(self, side)
    }

    fn to_array_mosaic(&self) -> (mosaic: ArrayMosaic<W, H>) {
        to_array_mosaic(self)
    }
}

/// The edges of a square mosaic, as a method.
pub trait SquareMosaicExt<const N: usize>: SquareMosaic<N> {
    /// The colors along `side`, read clockwise.
    fn edge(&self, side: Side) -> (edge: ArrayEdge<N>)
        ensures
            edge@ == spec_edge(self, side),
    ;
}

impl<const N: usize, M: SquareMosaic<N>> SquareMosaicExt<N> for M {
    fn edge(&self, side: Side) -> (edge: ArrayEdge<N>) {
        edge(self, side)
    }
}

/// A rectangular mosaic seen after a rotation, without copying it.
#[derive(Debug)]
pub struct RotatedRectangularMosaic<'a, const W: usize, const H: usize, M: RectangularMosaic<W, H>> {
    pub mosaic: &'a M,
    pub rotation: RectangularRotation,
}

impl<'a, const W: usize, const H: usize, M: RectangularMosaic<W, H>> RectangularMosaic<W, H> for RotatedRectangularMosaic<'a, W, H, M> {
    open spec fn spec_get(&self, x: int, y: int) -> RotatedTile {
        (match self.rotation {
            RectangularRotation::Identity => self.mosaic.spec_get(x, y),
            RectangularRotation::HalfTurn => self.mosaic.spec_get(W - 1 - x, H - 1 - y),
        }).plus(self.rotation.spec_to_square())
    }

    fn width(&self) -> (width: usize) {
        W
    }

    fn height(&self) -> (height: usize) {
        H
    }

    fn get(&self, x: usize, y: usize) -> (tile: RotatedTile) {
        (match self.rotation {
            RectangularRotation::Identity => self.mosaic.get(x, y),
            RectangularRotation::HalfTurn => self.mosaic.get(W - 1 - x, H - 1 - y),
        }).plus(self.rotation.to_square())
    }
}

impl<'a, const W: usize, const H: usize, M: RectangularMosaic<W, H>> RotatedRectangularMosaic<'a, W, H, M> {
    /// The same mosaic, seen after `rotation` on top of the rotation that
    /// this view already applies.
    pub fn with_rectangular_rotation(&self, rotation: RectangularRotation) -> (view: Self)
        ensures
            view.mosaic == self.mosaic,
            view.rotation == self.rotation.plus(rotation),
    {
        RotatedRectangularMosaic { mosaic: self.mosaic, rotation: self.rotation.plus(rotation) }
    }
}

impl<'a, const W: usize, const H: usize, M: RectangularMosaic<W, H>> Clone for RotatedRectangularMosaic<'a, W, H, M> {
    fn clone(&self) -> (copy: Self)
        ensures
            copy == *self,
    {
        RotatedRectangularMosaic { mosaic: self.mosaic, rotation: self.rotation }
    }
}

impl<'a, const W: usize, const H: usize, M: RectangularMosaic<W, H>> Copy for RotatedRectangularMosaic<'a, W, H, M> {

}

impl<'a, const W: usize, const H: usize, M: RectangularMosaic<W, H>> PartialEq for RotatedRectangularMosaic<'a, W, H, M> {
    fn eq(&self, other: &Self) -> (equal: bool) {
        tiles_equal(self, other)
    }
}

impl<'a, const W: usize, const H: usize, M: RectangularMosaic<W, H>> vstd::std_specs::cmp::PartialEqSpecImpl for RotatedRectangularMosaic<'a, W, H, M> {
    open spec fn obeys_eq_spec() -> bool {
        true
    }

    open spec fn eq_spec(&self, other: &Self) -> bool {
        same_tiles(self, other)
    }
}

impl<'a, const W: usize, const H: usize, M: RectangularMosaic<W, H>> Eq for RotatedRectangularMosaic<'a, W, H, M> {

}

impl<'a, const W: usize, const H: usize, M: RectangularMosaic<W, H>> PartialOrd for RotatedRectangularMosaic<'a, W, H, M> {
    fn partial_cmp(&self, other: &Self) -> (order: Option<core::cmp::Ordering>) {
        match tiles_compare(self, other) {
            Comparison::Less => Some(core::cmp::Ordering::Less),
            Comparison::Equal => Some(core::cmp::Ordering::Equal),
            Comparison::Greater => Some(core::cmp::Ordering::Greater),
        }
    }
}

impl<'a, const W: usize, const H: usize, M: RectangularMosaic<W, H>> vstd::std_specs::cmp::PartialOrdSpecImpl for RotatedRectangularMosaic<'a, W, H, M> {
    open spec fn obeys_partial_cmp_spec() -> bool {
        true
    }

    open spec fn partial_cmp_spec(&self, other: &Self) -> Option<core::cmp::Ordering> {
        if tiles_less(self, other) {
            Some(core::cmp::Ordering::Less)
        } else if same_tiles(self, other) {
            Some(core::cmp::Ordering::Equal)
        } else {
            Some(core::cmp::Ordering::Greater)
        }
    }
}

impl<'a, const W: usize, const H: usize, M: RectangularMosaic<W, H>> core::ops::Add<RectangularRotation> for RotatedRectangularMosaic<'a, W, H, M> {
    type Output = Self;

    fn add(self, rhs: RectangularRotation) -> (sum: Self) {
        RotatedRectangularMosaic { mosaic: self.mosaic, rotation: self.rotation.plus(rhs) }
    }
}

impl<'a, const W: usize, const H: usize, M: RectangularMosaic<W, H>> vstd::std_specs::ops::AddSpecImpl<RectangularRotation> for RotatedRectangularMosaic<'a, W, H, M> {
    open spec fn obeys_add_spec() -> bool {
        true
    }

    open spec fn add_req(self, rhs: RectangularRotation) -> bool {
        true
    }

    open spec fn add_spec(self, rhs: RectangularRotation) -> Self {
        RotatedRectangularMosaic { mosaic: self.mosaic, rotation: self.rotation.plus(rhs) }
    }
}

impl<'a, const W: usize, const H: usize, M: RectangularMosaic<W, H>> core::ops::AddAssign<RectangularRotation> for RotatedRectangularMosaic<'a, W, H, M> {
    fn add_assign(&mut self, rhs: RectangularRotation)
        ensures
            final(self).mosaic == old(self).mosaic,
            final(self).rotation == old(self).rotation.plus(rhs),
    {
        self.rotation = self.rotation.plus(rhs);
    }
}

impl<'a, const W: usize, const H: usize, M: RectangularMosaic<W, H>> From<&'a M> for RotatedRectangularMosaic<'a, W, H, M> {
    fn from(value: &'a M) -> (view: Self) {
        RotatedRectangularMosaic { mosaic: value, rotation: RectangularRotation::Identity }
    }
}

impl<'a, const W: usize, const H: usize, M: RectangularMosaic<W, H>> vstd::std_specs::convert::FromSpecImpl<&'a M> for RotatedRectangularMosaic<'a, W, H, M> {
    open spec fn obeys_from_spec() -> bool {
        true
    }

    open spec fn from_spec(value: &'a M) -> Self {
        RotatedRectangularMosaic { mosaic: value, rotation: RectangularRotation::Identity }
    }
}

/// A square mosaic seen after a rotation, without copying it.
#[derive(Debug)]
pub struct RotatedSquareMosaic<'a, const N: usize, M: SquareMosaic<N>> {
    pub mosaic: &'a M,
    pub rotation: Rotation,
}

impl<'a, const N: usize, M: SquareMosaic<N>> RectangularMosaic<N, N> for RotatedSquareMosaic<'a, N, M> {
    open spec fn spec_get(&self, x: int, y: int) -> RotatedTile {
        (match self.rotation {
            Rotation::Identity => self.mosaic.spec_get(x, y),
            Rotation::QuarterTurnLeft => self.mosaic.spec_get(N - 1 - y, x),
            Rotation::HalfTurn => self.mosaic.spec_get(N - 1 - x, N - 1 - y),
            Rotation::QuarterTurnRight => self.mosaic.spec_get(y, N - 1 - x),
        }).plus(self.rotation)
    }

    fn width(&self) -> (width: usize) {
        N
    }

    fn height(&self) -> (height: usize) {
        N
    }

    fn get(&self, x: usize, y: usize) -> (tile: RotatedTile) {
        (match self.rotation {
            Rotation::Identity => self.mosaic.get(x, y),
            Rotation::QuarterTurnLeft => self.mosaic.get(N - 1 - y, x),
            Rotation::HalfTurn => self.mosaic.get(N - 1 - x, N - 1 - y),
            Rotation::QuarterTurnRight => self.mosaic.get(y, N - 1 - x),
        }).plus(self.rotation)
    }
}

impl<'a, const N: usize, M: SquareMosaic<N>> SquareMosaic<N> for RotatedSquareMosaic<'a, N, M> {

}

impl<'a, const N: usize, M: SquareMosaic<N>> RotatedSquareMosaic<'a, N, M> {
    /// The same mosaic, seen after `rotation` on top of the rotation that
    /// this view already applies.
    pub fn with_rectangular_rotation(&self, rotation: RectangularRotation) -> (view: Self)
        ensures
            view.mosaic == self.mosaic,
            view.rotation == self.rotation.plus(rotation.spec_to_square()),
    {
        RotatedSquareMosaic { mosaic: self.mosaic, rotation: self.rotation.plus(rotation.to_square()) }
    }

    /// The same mosaic, seen after `rotation` on top of the rotation that
    /// this view already applies.
    pub fn with_square_rotation(&self, rotation: Rotation) -> (view: Self)
        ensures
            view.mosaic == self.mosaic,
            view.rotation == self.rotation.plus(rotation),
    {
        RotatedSquareMosaic { mosaic: self.mosaic, rotation: self.rotation.plus(rotation) }
    }
}

impl<'a, const N: usize, M: SquareMosaic<N>> Clone for RotatedSquareMosaic<'a, N, M> {
    fn clone(&self) -> (copy: Self)
        ensures
            copy == *self,
    {
        RotatedSquareMosaic { mosaic: self.mosaic, rotation: self.rotation }
    }
}

impl<'a, const N: usize, M: SquareMosaic<N>> Copy for RotatedSquareMosaic<'a, N, M> {

}

impl<'a, const N: usize, M: SquareMosaic<N>> PartialEq for RotatedSquareMosaic<'a, N, M> {
    fn eq(&self, other: &Self) -> (equal: bool) {
        tiles_equal(self, other)
    }
}

impl<'a, const N: usize, M: SquareMosaic<N>> vstd::std_specs::cmp::PartialEqSpecImpl for RotatedSquareMosaic<'a, N, M> {
    open spec fn obeys_eq_spec() -> bool {
        true
    }

    open spec fn eq_spec(&self, other: &Self) -> bool {
        same_tiles(self, other)
    }
}

impl<'a, const N: usize, M: SquareMosaic<N>> Eq for RotatedSquareMosaic<'a, N, M> {

}

impl<'a, const N: usize, M: SquareMosaic<N>> PartialOrd for RotatedSquareMosaic<'a, N, M> {
    fn partial_cmp(&self, other: &Self) -> (order: Option<core::cmp::Ordering>) {
        match tiles_compare(self, other) {
            Comparison::Less => Some(core::cmp::Ordering::Less),
            Comparison::Equal => Some(core::cmp::Ordering::Equal),
            Comparison::Greater => Some(core::cmp::Ordering::Greater),
        }
    }
}

impl<'a, const N: usize, M: SquareMosaic<N>> vstd::std_specs::cmp::PartialOrdSpecImpl for RotatedSquareMosaic<'a, N, M> {
    open spec fn obeys_partial_cmp_spec() -> bool {
        true
    }

    open spec fn partial_cmp_spec(&self, other: &Self) -> Option<core::cmp::Ordering> {
        if tiles_less(self, other) {
            Some(core::cmp::Ordering::Less)
        } else if same_tiles(self, other) {
            Some(core::cmp::Ordering::Equal)
        } else {
            Some(core::cmp::Ordering::Greater)
        }
    }
}

impl<'a, const N: usize, M: SquareMosaic<N>> core::ops::Add<Rotation> for RotatedSquareMosaic<'a, N, M> {
    type Output = Self;

    fn add(self, rhs: Rotation) -> (sum: Self) {
        RotatedSquareMosaic { mosaic: self.mosaic, rotation: self.rotation.plus(rhs) }
    }
}

impl<'a, const N: usize, M: SquareMosaic<N>> vstd::std_specs::ops::AddSpecImpl<Rotation> for RotatedSquareMosaic<'a, N, M> {
    open spec fn obeys_add_spec() -> bool {
        true
    }

    open spec fn add_req(self, rhs: Rotation) -> bool {
        true
    }

    open spec fn add_spec(self, rhs: Rotation) -> Self {
        RotatedSquareMosaic { mosaic: self.mosaic, rotation: self.rotation.plus(rhs) }
    }
}

impl<'a, const N: usize, M: SquareMosaic<N>> core::ops::AddAssign<Rotation> for RotatedSquareMosaic<'a, N, M> {
    fn add_assign(&mut self, rhs: Rotation)
        ensures
            final(self).mosaic == old(self).mosaic,
            final(self).rotation == old(self).rotation.plus(rhs),
    {
        self.rotation = self.rotation.plus(rhs);
    }
}

impl<'a, const N: usize, M: SquareMosaic<N>> From<&'a M> for RotatedSquareMosaic<'a, N, M> {
    fn from(value: &'a M) -> (view: Self) {
        RotatedSquareMosaic { mosaic: value, rotation: Rotation::Identity }
    }
}

impl<'a, const N: usize, M: SquareMosaic<N>> vstd::std_specs::convert::FromSpecImpl<&'a M> for RotatedSquareMosaic<'a, N, M> {
    open spec fn obeys_from_spec() -> bool {
        true
    }

    open spec fn from_spec(value: &'a M) -> Self {
        RotatedSquareMosaic { mosaic: value, rotation: Rotation::Identity }
    }
}

/// A mosaic that stores one rotated tile per cell, row by row.
#[derive(Clone, Copy, Debug, PartialEq, Eq, PartialOrd, Ord, Hash)]
pub struct ArrayMosaic<const W: usize, const H: usize> {
    pub tiles: [[RotatedTile; W]; H],
}

impl<const W: usize, const H: usize> RectangularMosaic<W, H> for ArrayMosaic<W, H> {
    open spec fn spec_get(&self, x: int, y: int) -> RotatedTile {
        self.tiles@[y]@[x]
    }

    fn width(&self) -> (width: usize) {
        W
    }

    fn height(&self) -> (height: usize) {
        H
    }

    fn get(&self, x: usize, y: usize) -> (tile: RotatedTile) {
        self.tiles[y][x]
    }
}

impl<const N: usize> SquareMosaic<N> for ArrayMosaic<N, N> {

}

impl<const W: usize, const H: usize> ArrayMosaic<W, H> {
    /// This mosaic, seen after `rotation`.
    pub fn with_rectangular_rotation(&self, rotation: RectangularRotation) -> (view:
        RotatedRectangularMosaic<'_, W, H, Self>)
        ensures
            view.mosaic == self,
            view.rotation == rotation,
    {
        RotatedRectangularMosaic { mosaic: self, rotation }
    }
}

impl<const N: usize> ArrayMosaic<N, N> {
    /// This mosaic, seen after `rotation`.
    pub fn with_square_rotation(&self, rotation: Rotation) -> (view: RotatedSquareMosaic<
        '_,
        N,
        Self,
    >)
        ensures
            view.mosaic == self,
            view.rotation == rotation,
    {
        RotatedSquareMosaic { mosaic: self, rotation }
    }
}

impl<'a, const W: usize, const H: usize> core::ops::Add<RectangularRotation> for &'a ArrayMosaic<W, H> {
    type Output = RotatedRectangularMosaic<'a, W, H, ArrayMosaic<W, H>>;

    fn add(self, rhs: RectangularRotation) -> (view: RotatedRectangularMosaic<
        'a,
        W,
        H,
        ArrayMosaic<W, H>,
    >) {
        RotatedRectangularMosaic { mosaic: self, rotation: rhs }
    }
}

impl<'a, const W: usize, const H: usize> vstd::std_specs::ops::AddSpecImpl<RectangularRotation> for &'a ArrayMosaic<W, H> {
    open spec fn obeys_add_spec() -> bool {
        true
    }

    open spec fn add_req(self, rhs: RectangularRotation) -> bool {
        true
    }

    open spec fn add_spec(self, rhs: RectangularRotation) -> RotatedRectangularMosaic<
        'a,
        W,
        H,
        ArrayMosaic<W, H>,
    > {
        RotatedRectangularMosaic { mosaic: self, rotation: rhs }
    }
}

impl<'a, const N: usize> core::ops::Add<Rotation> for &'a ArrayMosaic<N, N> {
    type Output = RotatedSquareMosaic<'a, N, ArrayMosaic<N, N>>;

    fn add(self, rhs: Rotation) -> (view: RotatedSquareMosaic<'a, N, ArrayMosaic<N, N>>) {
        RotatedSquareMosaic { mosaic: self, rotation: rhs }
    }
}

impl<'a, const N: usize> vstd::std_specs::ops::AddSpecImpl<Rotation> for &'a ArrayMosaic<N, N> {
    open spec fn obeys_add_spec() -> bool {
        true
    }

    open spec fn add_req(self, rhs: Rotation) -> bool {
        true
    }

    open spec fn add_spec(self, rhs: Rotation) -> RotatedSquareMosaic<'a, N, ArrayMosaic<N, N>> {
        RotatedSquareMosaic { mosaic: self, rotation: rhs }
    }
}

/// Four neighbouring cells of a mosaic, stored together: the upper two from
/// left to right, then the lower two.
#[derive(Clone, Copy, Debug, PartialEq, Eq, PartialOrd, Ord, Hash)]
pub struct PackedQuadRotatedTile {
    pub tiles: [Tile; 4],
    pub rotations: [Rotation; 4],
}

impl PackedQuadRotatedTile {
    /// The rotated tile stored at position `index` of the four.
    pub open spec fn spec_get(self, index: int) -> RotatedTile {
        RotatedTile { tile: self.tiles@[index], rotation: self.rotations@[index] }
    }
}

/// A mosaic that stores its cells in blocks of two by two, `QW` blocks to a
/// row and `QH` rows of blocks. The blocks always cover the `W` by `H` cells.
#[derive(Clone, Copy, Debug, PartialEq, Eq, PartialOrd, Ord, Hash)]
pub struct PackedArrayMosaic<const W: usize, const H: usize, const QW: usize, const QH: usize> {
    tiles: [[PackedQuadRotatedTile; QW]; QH],
}

/// The cell in column `x` of row `y` of a mosaic stored as the blocks `quads`.
pub open spec fn packed_cell<const QW: usize, const QH: usize>(
    quads: [[PackedQuadRotatedTile; QW]; QH],
    x: int,
    y: int,
) -> RotatedTile {
    quads@[y / 2]@[x / 2].spec_get(2 * (y % 2) + x % 2)
}

impl<const W: usize, const H: usize, const QW: usize, const QH: usize> PackedArrayMosaic<W, H, QW, QH> {
    #[verifier::type_invariant]
    spec fn covers(self) -> bool {
        W <= 2 * QW && H <= 2 * QH
    }

    /// The blocks that the mosaic stores.
    pub closed spec fn spec_quads(self) -> [[PackedQuadRotatedTile; QW]; QH] {
        self.tiles
    }

    /// The mosaic stored as the blocks `tiles`, if they cover `W` by `H`
    /// cells.
    pub fn new(tiles: [[PackedQuadRotatedTile; QW]; QH]) -> (mosaic: Option<Self>)
        ensures
            mosaic is Some <==> W <= 2 * QW && H <= 2 * QH,
            mosaic is Some ==> mosaic->0.spec_quads() == tiles,
    {
        if W / 2 + W % 2 <= QW && H / 2 + H % 2 <= QH {
            Some(PackedArrayMosaic { tiles })
        } else {
            None
        }
    }

    /// The blocks that the mosaic stores.
    pub fn quads(&self) -> (tiles: &[[PackedQuadRotatedTile; QW]; QH])
        ensures
            *tiles == self.spec_quads(),
    {
        &self.tiles
    }

    /// This mosaic, seen after `rotation`.
    pub fn with_rectangular_rotation(&self, rotation: RectangularRotation) -> (view: RotatedRectangularMosaic<'_, W, H, Self>)
        ensures
            view.mosaic == self,
            view.rotation == rotation,
    {
        RotatedRectangularMosaic { mosaic: self, rotation }
    }
}

impl<const W: usize, const H: usize, const QW: usize, const QH: usize> RectangularMosaic<W, H> for PackedArrayMosaic<W, H, QW, QH> {
    open spec fn spec_get(&self, x: int, y: int) -> RotatedTile {
        packed_cell(self.spec_quads(), x, y)
    }

    fn width(&self) -> (width: usize) {
        W
    }

    fn height(&self) -> (height: usize) {
        H
    }

    fn get(&self, x: usize, y: usize) -> (tile: RotatedTile) {
        proof {
            use_type_invariant(self);
        }
        let quad = &self.tiles[y / 2][x / 2];
        let index = 2 * (y % 2) + x % 2;
        RotatedTile { tile: quad.tiles[index], rotation: quad.rotations[index] }
    }
}

impl<const N: usize, const QN: usize> SquareMosaic<N> for PackedArrayMosaic<N, N, QN, QN> {

}

impl<const N: usize, const QN: usize> PackedArrayMosaic<N, N, QN, QN> {
    /// This mosaic, seen after `rotation`.
    pub fn with_square_rotation(&self, rotation: Rotation) -> (view: RotatedSquareMosaic<'_, N, Self>)
        ensures
            view.mosaic == self,
            view.rotation == rotation,
    {
        RotatedSquareMosaic { mosaic: self, rotation }
    }
}

impl<'a, const W: usize, const H: usize, const QW: usize, const QH: usize> core::ops::Add<RectangularRotation> for &'a PackedArrayMosaic<W, H, QW, QH> {
    type Output = RotatedRectangularMosaic<'a, W, H, PackedArrayMosaic<W, H, QW, QH>>;

    fn add(self, rhs: RectangularRotation) -> (view: RotatedRectangularMosaic<'a, W, H, PackedArrayMosaic<W, H, QW, QH>>) {
        RotatedRectangularMosaic { mosaic: self, rotation: rhs }
    }
}

impl<'a, const W: usize, const H: usize, const QW: usize, const QH: usize> vstd::std_specs::ops::AddSpecImpl<RectangularRotation> for &'a PackedArrayMosaic<W, H, QW, QH> {
    open spec fn obeys_add_spec() -> bool {
        true
    }

    open spec fn add_req(self, rhs: RectangularRotation) -> bool {
        true
    }

    open spec fn add_spec(self, rhs: RectangularRotation) -> RotatedRectangularMosaic<'a, W, H, PackedArrayMosaic<W, H, QW, QH>> {
        RotatedRectangularMosaic { mosaic: self, rotation: rhs }
    }
}

impl<'a, const N: usize, const QN: usize> core::ops::Add<Rotation> for &'a PackedArrayMosaic<N, N, QN, QN> {
    type Output = RotatedSquareMosaic<'a, N, PackedArrayMosaic<N, N, QN, QN>>;

    fn add(self, rhs: Rotation) -> (view: RotatedSquareMosaic<'a, N, PackedArrayMosaic<N, N, QN, QN>>) {
        RotatedSquareMosaic { mosaic: self, rotation: rhs }
    }
}

impl<'a, const N: usize, const QN: usize> vstd::std_specs::ops::AddSpecImpl<Rotation> for &'a PackedArrayMosaic<N, N, QN, QN> {
    open spec fn obeys_add_spec() -> bool {
        true
    }

    open spec fn add_req(self, rhs: Rotation) -> bool {
        true
    }

    open spec fn add_spec(self, rhs: Rotation) -> RotatedSquareMosaic<'a, N, PackedArrayMosaic<N, N, QN, QN>> {
        RotatedSquareMosaic { mosaic: self, rotation: rhs }
    }
}

/// A view turned by a further quarter turn to the left shows in each cell
/// what the view showed in the cell that the turn carries there, turned
/// along.
pub proof fn lemma_quarter_turn_moves_cells<const N: usize, M: SquareMosaic<N>>(
    view: RotatedSquareMosaic<'_, N, M>,
    x: int,
    y: int,
)
    ensures
        (RotatedSquareMosaic {
            mosaic: view.mosaic,
            rotation: view.rotation.plus(Rotation::QuarterTurnLeft),
        }).spec_get(x, y) == view.spec_get(N - 1 - y, x).plus(Rotation::QuarterTurnLeft),
{
}

proof fn lemma_quarter_turn_carries_right<const N: usize, M: SquareMosaic<N>>(
    view: RotatedSquareMosaic<'_, N, M>,
)
    ensures
        spec_edge(
            &RotatedSquareMosaic {
                mosaic: view.mosaic,
                rotation: view.rotation.plus(Rotation::QuarterTurnLeft),
            },
            Side::Top,
        ) == spec_edge(&view, Side::Right),
{
    let turn = Rotation::QuarterTurnLeft;
    let turned = RotatedSquareMosaic { mosaic: view.mosaic, rotation: view.rotation.plus(turn) };
    let before = spec_edge(&view, Side::Right);
    let after = spec_edge(&turned, Side::Top);
    assert(before.len() == after.len());
    assert forall|i: int| 0 <= i < N implies #[trigger] after[i] == before[i] by {
        lemma_quarter_turn_moves_cells(view, i, 0);
        crate::lemma_color_follows_rotation(view.spec_get(N - 1, i), turn, Side::Right);
    }
    assert(after =~= before);
}

proof fn lemma_quarter_turn_carries_top<const N: usize, M: SquareMosaic<N>>(
    view: RotatedSquareMosaic<'_, N, M>,
)
    ensures
        spec_edge(
            &RotatedSquareMosaic {
                mosaic: view.mosaic,
                rotation: view.rotation.plus(Rotation::QuarterTurnLeft),
            },
            Side::Left,
        ) == spec_edge(&view, Side::Top),
{
    let turn = Rotation::QuarterTurnLeft;
    let turned = RotatedSquareMosaic { mosaic: view.mosaic, rotation: view.rotation.plus(turn) };
    let before = spec_edge(&view, Side::Top);
    let after = spec_edge(&turned, Side::Left);
    assert(before.len() == after.len());
    assert forall|i: int| 0 <= i < N implies #[trigger] after[i] == before[i] by {
        lemma_quarter_turn_moves_cells(view, 0, N - 1 - i);
        crate::lemma_color_follows_rotation(view.spec_get(i, 0), turn, Side::Top);
    }
    assert(after =~= before);
}

proof fn lemma_quarter_turn_carries_left<const N: usize, M: SquareMosaic<N>>(
    view: RotatedSquareMosaic<'_, N, M>,
)
    ensures
        spec_edge(
            &RotatedSquareMosaic {
                mosaic: view.mosaic,
                rotation: view.rotation.plus(Rotation::QuarterTurnLeft),
            },
            Side::Bottom,
        ) == spec_edge(&view, Side::Left),
{
    let turn = Rotation::QuarterTurnLeft;
    let turned = RotatedSquareMosaic { mosaic: view.mosaic, rotation: view.rotation.plus(turn) };
    let before = spec_edge(&view, Side::Left);
    let after = spec_edge(&turned, Side::Bottom);
    assert(before.len() == after.len());
    assert forall|i: int| 0 <= i < N implies #[trigger] after[i] == before[i] by {
        lemma_quarter_turn_moves_cells(view, N - 1 - i, N - 1);
        crate::lemma_color_follows_rotation(view.spec_get(0, N - 1 - i), turn, Side::Left);
    }
    assert(after =~= before);
}

proof fn lemma_quarter_turn_carries_bottom<const N: usize, M: SquareMosaic<N>>(
    view: RotatedSquareMosaic<'_, N, M>,
)
    ensures
        spec_edge(
            &RotatedSquareMosaic {
                mosaic: view.mosaic,
                rotation: view.rotation.plus(Rotation::QuarterTurnLeft),
            },
            Side::Right,
        ) == spec_edge(&view, Side::Bottom),
{
    let turn = Rotation::QuarterTurnLeft;
    let turned = RotatedSquareMosaic { mosaic: view.mosaic, rotation: view.rotation.plus(turn) };
    let before = spec_edge(&view, Side::Bottom);
    let after = spec_edge(&turned, Side::Right);
    assert(before.len() == after.len());
    assert forall|i: int| 0 <= i < N implies #[trigger] after[i] == before[i] by {
        lemma_quarter_turn_moves_cells(view, N - 1, i);
        crate::lemma_color_follows_rotation(view.spec_get(N - 1 - i, N - 1), turn, Side::Bottom);
    }
    assert(after =~= before);
}

proof fn lemma_half_turn_moves_square_cells<const N: usize, M: SquareMosaic<N>>(
    view: RotatedSquareMosaic<'_, N, M>,
    x: int,
    y: int,
)
    ensures
        (RotatedSquareMosaic {
            mosaic: view.mosaic,
            rotation: view.rotation.plus(Rotation::HalfTurn),
        }).spec_get(x, y) == view.spec_get(N - 1 - x, N - 1 - y).plus(Rotation::HalfTurn),
{
}

proof fn lemma_quarter_turn_right_moves_cells<const N: usize, M: SquareMosaic<N>>(
    view: RotatedSquareMosaic<'_, N, M>,
    x: int,
    y: int,
)
    ensures
        (RotatedSquareMosaic {
            mosaic: view.mosaic,
            rotation: view.rotation.plus(Rotation::QuarterTurnRight),
        }).spec_get(x, y) == view.spec_get(y, N - 1 - x).plus(Rotation::QuarterTurnRight),
{
}

proof fn lemma_no_turn_moves_no_cells<const N: usize, M: SquareMosaic<N>>(
    view: RotatedSquareMosaic<'_, N, M>,
    x: int,
    y: int,
)
    ensures
        (RotatedSquareMosaic {
            mosaic: view.mosaic,
            rotation: view.rotation.plus(Rotation::Identity),
        }).spec_get(x, y) == view.spec_get(x, y).plus(Rotation::Identity),
{
}

/// The cell of a view that a further turn carries to column `x` of row `y`.
pub open spec fn cell_carried_to<const N: usize, M: SquareMosaic<N>>(
    view: &RotatedSquareMosaic<'_, N, M>,
    turn: Rotation,
    x: int,
    y: int,
) -> RotatedTile {
    match turn {
        Rotation::Identity => view.spec_get(x, y),
        Rotation::QuarterTurnLeft => view.spec_get(N - 1 - y, x),
        Rotation::HalfTurn => view.spec_get(N - 1 - x, N - 1 - y),
        Rotation::QuarterTurnRight => view.spec_get(y, N - 1 - x),
    }
}

proof fn lemma_turn_moves_cells<const N: usize, M: SquareMosaic<N>>(
    view: RotatedSquareMosaic<'_, N, M>,
    turn: Rotation,
    x: int,
    y: int,
)
    ensures
        (RotatedSquareMosaic { mosaic: view.mosaic, rotation: view.rotation.plus(turn) }).spec_get(
            x,
            y,
        ) == cell_carried_to(&view, turn, x, y).plus(turn),
{
    match turn {
        Rotation::Identity => lemma_no_turn_moves_no_cells(view, x, y),
        Rotation::QuarterTurnLeft => lemma_quarter_turn_moves_cells(view, x, y),
        Rotation::HalfTurn => lemma_half_turn_moves_square_cells(view, x, y),
        Rotation::QuarterTurnRight => lemma_quarter_turn_right_moves_cells(view, x, y),
    }
}

proof fn lemma_cell_of_a_view_of_a_view<const N: usize, M: SquareMosaic<N>>(
    view: RotatedSquareMosaic<'_, N, M>,
    turn: Rotation,
    x: int,
    y: int,
)
    ensures
        (RotatedSquareMosaic { mosaic: &view, rotation: turn }).spec_get(x, y) == cell_carried_to(
            &view,
            turn,
            x,
            y,
        ).plus(turn),
{
}

/// A view of a view shows in each cell what the mosaic shows there after
/// both rotations.
pub proof fn lemma_view_of_a_square_view<const N: usize, M: SquareMosaic<N>>(
    view: RotatedSquareMosaic<'_, N, M>,
    turn: Rotation,
)
    ensures
        same_tiles(
            &RotatedSquareMosaic { mosaic: &view, rotation: turn },
            &RotatedSquareMosaic { mosaic: view.mosaic, rotation: view.rotation.plus(turn) },
        ),
{
    let nested = RotatedSquareMosaic { mosaic: &view, rotation: turn };
    let flat = RotatedSquareMosaic { mosaic: view.mosaic, rotation: view.rotation.plus(turn) };
    assert forall|x: int, y: int| 0 <= x < N && 0 <= y < N implies #[trigger] nested.spec_get(x, y)
        == flat.spec_get(x, y) by {
        lemma_cell_of_a_view_of_a_view(view, turn, x, y);
        lemma_turn_moves_cells(view, turn, x, y);
    }
}

/// A view of a view of a rectangular mosaic shows in each cell what the
/// mosaic shows there after both rotations.
pub proof fn lemma_view_of_a_rectangular_view<
    const W: usize,
    const H: usize,
    M: RectangularMosaic<W, H>,
>(view: RotatedRectangularMosaic<'_, W, H, M>, turn: RectangularRotation)
    ensures
        same_tiles(
            &RotatedRectangularMosaic { mosaic: &view, rotation: turn },
            &RotatedRectangularMosaic { mosaic: view.mosaic, rotation: view.rotation.plus(turn) },
        ),
{
    let nested = RotatedRectangularMosaic { mosaic: &view, rotation: turn };
    let flat = RotatedRectangularMosaic { mosaic: view.mosaic, rotation: view.rotation.plus(turn) };
    assert forall|x: int, y: int| 0 <= x < W && 0 <= y < H implies #[trigger] nested.spec_get(x, y)
        == flat.spec_get(x, y) by {
        let inner = match turn {
            RectangularRotation::Identity => view.spec_get(x, y),
            RectangularRotation::HalfTurn => view.spec_get(W - 1 - x, H - 1 - y),
        };
        assert(nested.spec_get(x, y) == inner.plus(turn.spec_to_square()));
    }
}

/// The colors along `side` of `mosaic` seen after `rotation`.
#[verifier::opaque]
pub open spec fn rotated_edge<const N: usize, M: SquareMosaic<N>>(
    mosaic: &M,
    rotation: Rotation,
    side: Side,
) -> Seq<Color> {
    spec_edge(&RotatedSquareMosaic { mosaic, rotation }, side)
}

/// What `rotated_edge` stands for.
pub proof fn lemma_rotated_edge_is_edge_of_view<const N: usize, M: SquareMosaic<N>>(
    mosaic: &M,
    rotation: Rotation,
    side: Side,
)
    ensures
        rotated_edge(mosaic, rotation, side) == spec_edge(
            &RotatedSquareMosaic { mosaic, rotation },
            side,
        ),
{
    reveal(rotated_edge);
}

proof fn lemma_rotated_right_moves<const N: usize, M: SquareMosaic<N>>(mosaic: &M, rotation: Rotation)
    ensures
        rotated_edge(mosaic, rotation.plus(Rotation::QuarterTurnLeft), Side::Top) == rotated_edge(
            mosaic,
            rotation,
            Side::Right,
        ),
{
    reveal(rotated_edge);
    lemma_quarter_turn_carries_right(RotatedSquareMosaic { mosaic, rotation });
}

proof fn lemma_rotated_top_moves<const N: usize, M: SquareMosaic<N>>(mosaic: &M, rotation: Rotation)
    ensures
        rotated_edge(mosaic, rotation.plus(Rotation::QuarterTurnLeft), Side::Left) == rotated_edge(
            mosaic,
            rotation,
            Side::Top,
        ),
{
    reveal(rotated_edge);
    lemma_quarter_turn_carries_top(RotatedSquareMosaic { mosaic, rotation });
}

proof fn lemma_rotated_left_moves<const N: usize, M: SquareMosaic<N>>(mosaic: &M, rotation: Rotation)
    ensures
        rotated_edge(mosaic, rotation.plus(Rotation::QuarterTurnLeft), Side::Bottom) == rotated_edge(
            mosaic,
            rotation,
            Side::Left,
        ),
{
    reveal(rotated_edge);
    lemma_quarter_turn_carries_left(RotatedSquareMosaic { mosaic, rotation });
}

proof fn lemma_rotated_bottom_moves<const N: usize, M: SquareMosaic<N>>(mosaic: &M, rotation: Rotation)
    ensures
        rotated_edge(mosaic, rotation.plus(Rotation::QuarterTurnLeft), Side::Right) == rotated_edge(
            mosaic,
            rotation,
            Side::Bottom,
        ),
{
    reveal(rotated_edge);
    lemma_quarter_turn_carries_bottom(RotatedSquareMosaic { mosaic, rotation });
}

/// A mosaic turned by a further quarter turn to the left shows on each side
/// what it showed on the side that the turn carries there.
proof fn lemma_edge_follows_quarter_turn<const N: usize, M: SquareMosaic<N>>(
    mosaic: &M,
    rotation: Rotation,
    side: Side,
)
    ensures
        rotated_edge(
            mosaic,
            rotation.plus(Rotation::QuarterTurnLeft),
            side.spec_transform(Rotation::QuarterTurnLeft),
        ) == rotated_edge(mosaic, rotation, side),
{
    crate::lemma_quarter_turn_carries_sides();
    match side {
        Side::Right => lemma_rotated_right_moves(mosaic, rotation),
        Side::Top => lemma_rotated_top_moves(mosaic, rotation),
        Side::Left => lemma_rotated_left_moves(mosaic, rotation),
        Side::Bottom => lemma_rotated_bottom_moves(mosaic, rotation),
    }
}

/// A mosaic turned further by `turn` shows on the side that `turn` carries
/// `side` onto what it showed on `side`.
pub proof fn lemma_rotated_edge_follows_rotation<const N: usize, M: SquareMosaic<N>>(
    mosaic: &M,
    rotation: Rotation,
    turn: Rotation,
    side: Side,
)
    ensures
        rotated_edge(mosaic, rotation.plus(turn), side.spec_transform(turn)) == rotated_edge(
            mosaic,
            rotation,
            side,
        ),
    decreases turn.spec_to_primitive(),
{
    let quarter = Rotation::QuarterTurnLeft;
    match turn {
        Rotation::Identity => {
            assert(rotation.plus(turn) == rotation);
            assert(side.spec_transform(turn) == side);
        },
        Rotation::QuarterTurnLeft => {
            lemma_edge_follows_quarter_turn(mosaic, rotation, side);
        },
        Rotation::HalfTurn => {
            lemma_rotated_edge_follows_rotation(mosaic, rotation, quarter, side);
            lemma_edge_follows_quarter_turn(
                mosaic,
                rotation.plus(quarter),
                side.spec_transform(quarter),
            );
            crate::lemma_rotation_plus_is_associative(rotation, quarter, quarter);
            crate::lemma_transform_composes(side, quarter, quarter);
            assert(quarter.plus(quarter) == turn);
        },
        Rotation::QuarterTurnRight => {
            let half = Rotation::HalfTurn;
            lemma_rotated_edge_follows_rotation(mosaic, rotation, half, side);
            lemma_edge_follows_quarter_turn(mosaic, rotation.plus(half), side.spec_transform(half));
            crate::lemma_rotation_plus_is_associative(rotation, half, quarter);
            crate::lemma_transform_composes(side, half, quarter);
            assert(half.plus(quarter) == turn);
        },
    }
}

/// Turning a view of a square mosaic carries each of its edges along: the
/// view turned further by `turn` shows on the side that `turn` carries `side`
/// onto what the view showed on `side`.
pub proof fn lemma_edge_follows_rotation<const N: usize, M: SquareMosaic<N>>(
    view: RotatedSquareMosaic<'_, N, M>,
    turn: Rotation,
    side: Side,
)
    ensures
        spec_edge(
            &RotatedSquareMosaic { mosaic: view.mosaic, rotation: view.rotation.plus(turn) },
            side.spec_transform(turn),
        ) == spec_edge(&view, side),
{
    lemma_rotated_edge_follows_rotation(view.mosaic, view.rotation, turn, side);
    reveal(rotated_edge);
}

/// A view of a rectangular mosaic turned by a further half turn shows in each
/// cell what the view showed in the opposite cell, turned along.
pub proof fn lemma_half_turn_moves_cells<const W: usize, const H: usize, M: RectangularMosaic<W, H>>(
    view: RotatedRectangularMosaic<'_, W, H, M>,
    x: int,
    y: int,
)
    ensures
        (RotatedRectangularMosaic {
            mosaic: view.mosaic,
            rotation: view.rotation.plus(RectangularRotation::HalfTurn),
        }).spec_get(x, y) == view.spec_get(W - 1 - x, H - 1 - y).plus(Rotation::HalfTurn),
{
}

proof fn lemma_half_turn_carries_right<const W: usize, const H: usize, M: RectangularMosaic<W, H>>(
    view: RotatedRectangularMosaic<'_, W, H, M>,
)
    ensures
        spec_vertical_edge(
            &RotatedRectangularMosaic {
                mosaic: view.mosaic,
                rotation: view.rotation.plus(RectangularRotation::HalfTurn),
            },
            VerticalSide::Left,
        ) == spec_vertical_edge(&view, VerticalSide::Right),
{
    let turned = RotatedRectangularMosaic {
        mosaic: view.mosaic,
        rotation: view.rotation.plus(RectangularRotation::HalfTurn),
    };
    let before = spec_vertical_edge(&view, VerticalSide::Right);
    let after = spec_vertical_edge(&turned, VerticalSide::Left);
    assert(before.len() == after.len());
    assert forall|i: int| 0 <= i < H implies #[trigger] after[i] == before[i] by {
        lemma_half_turn_moves_cells(view, 0, H - 1 - i);
        crate::lemma_color_follows_rotation(view.spec_get(W - 1, i), Rotation::HalfTurn, Side::Right);
    }
    assert(after =~= before);
}

proof fn lemma_half_turn_carries_left<const W: usize, const H: usize, M: RectangularMosaic<W, H>>(
    view: RotatedRectangularMosaic<'_, W, H, M>,
)
    ensures
        spec_vertical_edge(
            &RotatedRectangularMosaic {
                mosaic: view.mosaic,
                rotation: view.rotation.plus(RectangularRotation::HalfTurn),
            },
            VerticalSide::Right,
        ) == spec_vertical_edge(&view, VerticalSide::Left),
{
    let turned = RotatedRectangularMosaic {
        mosaic: view.mosaic,
        rotation: view.rotation.plus(RectangularRotation::HalfTurn),
    };
    let before = spec_vertical_edge(&view, VerticalSide::Left);
    let after = spec_vertical_edge(&turned, VerticalSide::Right);
    assert(before.len() == after.len());
    assert forall|i: int| 0 <= i < H implies #[trigger] after[i] == before[i] by {
        lemma_half_turn_moves_cells(view, W - 1, i);
        crate::lemma_color_follows_rotation(view.spec_get(0, H - 1 - i), Rotation::HalfTurn, Side::Left);
    }
    assert(after =~= before);
}

proof fn lemma_half_turn_carries_top<const W: usize, const H: usize, M: RectangularMosaic<W, H>>(
    view: RotatedRectangularMosaic<'_, W, H, M>,
)
    ensures
        spec_horizontal_edge(
            &RotatedRectangularMosaic {
                mosaic: view.mosaic,
                rotation: view.rotation.plus(RectangularRotation::HalfTurn),
            },
            HorizontalSide::Bottom,
        ) == spec_horizontal_edge(&view, HorizontalSide::Top),
{
    let turned = RotatedRectangularMosaic {
        mosaic: view.mosaic,
        rotation: view.rotation.plus(RectangularRotation::HalfTurn),
    };
    let before = spec_horizontal_edge(&view, HorizontalSide::Top);
    let after = spec_horizontal_edge(&turned, HorizontalSide::Bottom);
    assert(before.len() == after.len());
    assert forall|i: int| 0 <= i < W implies #[trigger] after[i] == before[i] by {
        lemma_half_turn_moves_cells(view, W - 1 - i, H - 1);
        crate::lemma_color_follows_rotation(view.spec_get(i, 0), Rotation::HalfTurn, Side::Top);
    }
    assert(after =~= before);
}

proof fn lemma_half_turn_carries_bottom<const W: usize, const H: usize, M: RectangularMosaic<W, H>>(
    view: RotatedRectangularMosaic<'_, W, H, M>,
)
    ensures
        spec_horizontal_edge(
            &RotatedRectangularMosaic {
                mosaic: view.mosaic,
                rotation: view.rotation.plus(RectangularRotation::HalfTurn),
            },
            HorizontalSide::Top,
        ) == spec_horizontal_edge(&view, HorizontalSide::Bottom),
{
    let turned = RotatedRectangularMosaic {
        mosaic: view.mosaic,
        rotation: view.rotation.plus(RectangularRotation::HalfTurn),
    };
    let before = spec_horizontal_edge(&view, HorizontalSide::Bottom);
    let after = spec_horizontal_edge(&turned, HorizontalSide::Top);
    assert(before.len() == after.len());
    assert forall|i: int| 0 <= i < W implies #[trigger] after[i] == before[i] by {
        lemma_half_turn_moves_cells(view, i, 0);
        crate::lemma_color_follows_rotation(view.spec_get(W - 1 - i, H - 1), Rotation::HalfTurn, Side::Bottom);
    }
    assert(after =~= before);
}

/// Turning a view of a rectangular mosaic carries its vertical edges along.
pub proof fn lemma_vertical_edge_follows_rotation<const W: usize, const H: usize, M: RectangularMosaic<W, H>>(
    view: RotatedRectangularMosaic<'_, W, H, M>,
    turn: RectangularRotation,
    side: VerticalSide,
)
    ensures
        spec_vertical_edge(
            &RotatedRectangularMosaic { mosaic: view.mosaic, rotation: view.rotation.plus(turn) },
            side.plus(turn),
        ) == spec_vertical_edge(&view, side),
{
    match turn {
        RectangularRotation::Identity => {
            assert(view.rotation.plus(turn) == view.rotation);
        },
        RectangularRotation::HalfTurn => {
            match side {
                VerticalSide::Right => lemma_half_turn_carries_right(view),
                VerticalSide::Left => lemma_half_turn_carries_left(view),
            }
        },
    }
}

/// Turning a view of a rectangular mosaic carries its horizontal edges along.
pub proof fn lemma_horizontal_edge_follows_rotation<const W: usize, const H: usize, M: RectangularMosaic<W, H>>(
    view: RotatedRectangularMosaic<'_, W, H, M>,
    turn: RectangularRotation,
    side: HorizontalSide,
)
    ensures
        spec_horizontal_edge(
            &RotatedRectangularMosaic { mosaic: view.mosaic, rotation: view.rotation.plus(turn) },
            side.plus(turn),
        ) == spec_horizontal_edge(&view, side),
{
    match turn {
        RectangularRotation::Identity => {
            assert(view.rotation.plus(turn) == view.rotation);
        },
        RectangularRotation::HalfTurn => {
            match side {
                HorizontalSide::Top => lemma_half_turn_carries_top(view),
                HorizontalSide::Bottom => lemma_half_turn_carries_bottom(view),
            }
        },
    }
}

/// The colors along the vertical side `side` of `mosaic` seen after
/// `rotation`.
#[verifier::opaque]
pub open spec fn rotated_vertical_edge<const W: usize, const H: usize, M: RectangularMosaic<W, H>>(
    mosaic: &M,
    rotation: RectangularRotation,
    side: VerticalSide,
) -> Seq<Color> {
    spec_vertical_edge(&RotatedRectangularMosaic { mosaic, rotation }, side)
}

/// The colors along the horizontal side `side` of `mosaic` seen after
/// `rotation`.
#[verifier::opaque]
pub open spec fn rotated_horizontal_edge<const W: usize, const H: usize, M: RectangularMosaic<W, H>>(
    mosaic: &M,
    rotation: RectangularRotation,
    side: HorizontalSide,
) -> Seq<Color> {
    spec_horizontal_edge(&RotatedRectangularMosaic { mosaic, rotation }, side)
}

/// What `rotated_vertical_edge` stands for.
pub proof fn lemma_rotated_vertical_edge_is_edge_of_view<const W: usize, const H: usize, M: RectangularMosaic<W, H>>(
    mosaic: &M,
    rotation: RectangularRotation,
    side: VerticalSide,
)
    ensures
        rotated_vertical_edge(mosaic, rotation, side) == spec_vertical_edge(
            &RotatedRectangularMosaic { mosaic, rotation },
            side,
        ),
{
    reveal(rotated_vertical_edge);
}

/// What `rotated_horizontal_edge` stands for.
pub proof fn lemma_rotated_horizontal_edge_is_edge_of_view<const W: usize, const H: usize, M: RectangularMosaic<W, H>>(
    mosaic: &M,
    rotation: RectangularRotation,
    side: HorizontalSide,
)
    ensures
        rotated_horizontal_edge(mosaic, rotation, side) == spec_horizontal_edge(
            &RotatedRectangularMosaic { mosaic, rotation },
            side,
        ),
{
    reveal(rotated_horizontal_edge);
}

/// A rectangular mosaic turned further by `turn` shows on the vertical side
/// that `turn` carries `side` onto what it showed on `side`.
pub proof fn lemma_rotated_vertical_edge_follows_rotation<const W: usize, const H: usize, M: RectangularMosaic<W, H>>(
    mosaic: &M,
    rotation: RectangularRotation,
    turn: RectangularRotation,
    side: VerticalSide,
)
    ensures
        rotated_vertical_edge(mosaic, rotation.plus(turn), side.plus(turn))
            == rotated_vertical_edge(mosaic, rotation, side),
{
    reveal(rotated_vertical_edge);
    lemma_vertical_edge_follows_rotation(RotatedRectangularMosaic { mosaic, rotation }, turn, side);
}

/// A rectangular mosaic turned further by `turn` shows on the horizontal
/// side that `turn` carries `side` onto what it showed on `side`.
pub proof fn lemma_rotated_horizontal_edge_follows_rotation<const W: usize, const H: usize, M: RectangularMosaic<W, H>>(
    mosaic: &M,
    rotation: RectangularRotation,
    turn: RectangularRotation,
    side: HorizontalSide,
)
    ensures
        rotated_horizontal_edge(mosaic, rotation.plus(turn), side.plus(turn))
            == rotated_horizontal_edge(mosaic, rotation, side),
{
    reveal(rotated_horizontal_edge);
    lemma_horizontal_edge_follows_rotation(
        RotatedRectangularMosaic { mosaic, rotation },
        turn,
        side,
    );
}

} // verus!
