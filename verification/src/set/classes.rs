use crate::mosaic::{grid, ArrayMosaic, RectangularMosaic, RotatedSquareMosaic};
use crate::set::square::{orbit_member, orbits_distinct};
use crate::set::{
    canonical_tiles, is_canonical, is_clue_tile, rotated_tile_of_rank, single_tiles, Class,
};
use crate::{RotatedTile, Rotation, Side, Tile};
use vstd::prelude::*;

verus! {

/// The class of a tile. The catalog lists the tiles row by row as they may lie
/// on a board of 16 by 16: a corner lies in a corner of that board, an edge
/// elsewhere on its rim, a center inside.
pub open spec fn spec_class_of(tile: Tile) -> Class {
    let on_side = tile.0 % 16 == 0 || tile.0 % 16 == 15;
    let on_end = tile.0 / 16 == 0 || tile.0 / 16 == 15;
    if on_side && on_end {
        Class::Corner
    } else if on_side || on_end {
        Class::Edge
    } else {
        Class::Center
    }
}

/// The rotation in which a tile is canonical: the one that carries the
/// exterior of a corner to the top and left, that of an edge to the left, and
/// none for a center.
pub open spec fn spec_canonical_rotation(tile: Tile) -> Rotation {
    if tile.0 % 16 == 0 && tile.0 / 16 < 15 {
        Rotation::Identity
    } else if tile.0 / 16 == 0 {
        Rotation::QuarterTurnLeft
    } else if tile.0 % 16 == 15 {
        Rotation::HalfTurn
    } else if tile.0 / 16 == 15 {
        Rotation::QuarterTurnRight
    } else {
        Rotation::Identity
    }
}

/// Every tile is canonical in exactly one way and in exactly one rotation:
/// in the way of its class, in its canonical rotation.
pub proof fn lemma_every_tile_is_canonical_once(tile: Tile, class: Class, rotation: Rotation)
    ensures
        is_canonical(class, RotatedTile { tile, rotation }) <==> class == spec_class_of(tile)
            && rotation == spec_canonical_rotation(tile),
{
    tile.lemma_exterior_is_on_the_rim(Side::Right);
    tile.lemma_exterior_is_on_the_rim(Side::Top);
    tile.lemma_exterior_is_on_the_rim(Side::Left);
    tile.lemma_exterior_is_on_the_rim(Side::Bottom);
}

/// The clue tiles are centers.
pub proof fn lemma_clue_tiles_are_centers(tile: Tile)
    requires
        is_clue_tile(tile),
    ensures
        spec_class_of(tile) == Class::Center,
{
}

/// What a tile adds to the lists of canonical tiles: itself in its canonical
/// rotation to the list of its class, unless it is left out as a clue tile.
pub proof fn lemma_canonical_tiles_tile_by_tile(class: Class, without_clues: bool, tile: Tile)
    ensures
        canonical_tiles(class, without_clues, (4 * tile.0 + 4) as nat) == if class
            == spec_class_of(tile) && !(without_clues && is_clue_tile(tile)) {
            canonical_tiles(class, without_clues, (4 * tile.0) as nat).push(
                RotatedTile { tile, rotation: spec_canonical_rotation(tile) },
            )
        } else {
            canonical_tiles(class, without_clues, (4 * tile.0) as nat)
        },
{
    let first = 4 * tile.0;
    assert(rotated_tile_of_rank(first) == RotatedTile { tile, rotation: Rotation::Identity });
    assert(rotated_tile_of_rank(first + 1) == RotatedTile {
        tile,
        rotation: Rotation::QuarterTurnLeft,
    });
    assert(rotated_tile_of_rank(first + 2) == RotatedTile { tile, rotation: Rotation::HalfTurn });
    assert(rotated_tile_of_rank(first + 3) == RotatedTile {
        tile,
        rotation: Rotation::QuarterTurnRight,
    });
    lemma_every_tile_is_canonical_once(tile, class, Rotation::Identity);
    lemma_every_tile_is_canonical_once(tile, class, Rotation::QuarterTurnLeft);
    lemma_every_tile_is_canonical_once(tile, class, Rotation::HalfTurn);
    lemma_every_tile_is_canonical_once(tile, class, Rotation::QuarterTurnRight);
    reveal_with_fuel(canonical_tiles, 5);
}

/// How many of the first `tiles` tiles are of `class`, the clue tiles left out
/// if `without_clues`.
pub open spec fn tiles_of_class(class: Class, without_clues: bool, tiles: int) -> int {
    let corners = if tiles > 255 {
        4int
    } else if tiles > 240 {
        3int
    } else if tiles > 15 {
        2int
    } else if tiles > 0 {
        1int
    } else {
        0int
    };
    let row = tiles / 16;
    let column = tiles % 16;
    let rows_inside = if row < 1 {
        0
    } else if row > 15 {
        14
    } else {
        row - 1
    };
    let inside_of_row = if row < 1 || row > 14 || column < 1 {
        0
    } else if column > 14 {
        14
    } else {
        column - 1
    };
    let centers = 14 * rows_inside + inside_of_row;
    let clues = (if tiles > 76 { 1int } else { 0int }) + (if tiles > 125 { 1int } else { 0int })
        + (if tiles > 135 { 1int } else { 0int }) + (if tiles > 179 { 1int } else { 0int })
        + (if tiles > 211 { 1int } else { 0int });
    match class {
        Class::Corner => corners,
        Class::Edge => tiles - corners - centers,
        Class::Center => if without_clues {
            centers - clues
        } else {
            centers
        },
    }
}

/// The count of the tiles of a class goes up by one with each tile of the
/// class that is not left out.
proof fn lemma_one_more_tile(class: Class, without_clues: bool, tile: Tile)
    ensures
        tiles_of_class(class, without_clues, tile.0 + 1) == tiles_of_class(
            class,
            without_clues,
            tile.0 as int,
        ) + if class == spec_class_of(tile) && !(without_clues && is_clue_tile(tile)) {
            1int
        } else {
            0int
        },
{
    let row = tile.0 / 16;
    let column = tile.0 % 16;
    assert(tile.0 == 16 * row + column);
    if column == 15 {
        assert((tile.0 + 1) / 16 == row + 1);
        assert((tile.0 + 1) % 16 == 0);
    } else {
        assert((tile.0 + 1) / 16 == row as int);
        assert((tile.0 + 1) % 16 == column + 1);
    }
}

/// The canonical tiles among the rotations of the first `tiles` tiles are as
/// many as there are tiles of the class among these.
pub proof fn lemma_canonical_tiles_are_counted(class: Class, without_clues: bool, tiles: nat)
    requires
        tiles <= 256,
    ensures
        canonical_tiles(class, without_clues, 4 * tiles).len() == tiles_of_class(
            class,
            without_clues,
            tiles as int,
        ),
    decreases tiles,
{
    if tiles > 0 {
        let tile = Tile((tiles - 1) as u8);
        lemma_canonical_tiles_are_counted(class, without_clues, (tiles - 1) as nat);
        lemma_canonical_tiles_tile_by_tile(class, without_clues, tile);
        lemma_one_more_tile(class, without_clues, tile);
    }
}

/// There are 4 canonical corners, 56 canonical edges and 196 canonical
/// centers, 191 of which are no clue tiles.
pub proof fn lemma_canonical_tile_counts()
    ensures
        canonical_tiles(Class::Corner, false, 1024).len() == 4,
        canonical_tiles(Class::Edge, false, 1024).len() == 56,
        canonical_tiles(Class::Center, false, 1024).len() == 196,
        canonical_tiles(Class::Corner, true, 1024).len() == 4,
        canonical_tiles(Class::Edge, true, 1024).len() == 56,
        canonical_tiles(Class::Center, true, 1024).len() == 191,
{
    lemma_canonical_tiles_are_counted(Class::Corner, false, 256);
    lemma_canonical_tiles_are_counted(Class::Edge, false, 256);
    lemma_canonical_tiles_are_counted(Class::Center, false, 256);
    lemma_canonical_tiles_are_counted(Class::Corner, true, 256);
    lemma_canonical_tiles_are_counted(Class::Edge, true, 256);
    lemma_canonical_tiles_are_counted(Class::Center, true, 256);
}

/// Whether a rotated tile belongs on the list of the canonical tiles of
/// `class`.
pub open spec fn is_listed(class: Class, without_clues: bool, rotated_tile: RotatedTile) -> bool {
    is_canonical(class, rotated_tile) && !(without_clues && is_clue_tile(rotated_tile.tile))
}

/// Two rotated tiles that are canonical in one way and show the same tile are
/// the same.
proof fn lemma_canonical_in_one_rotation(class: Class, first: RotatedTile, second: RotatedTile)
    requires
        is_canonical(class, first),
        is_canonical(class, second),
        first.tile == second.tile,
    ensures
        first == second,
{
    lemma_every_tile_is_canonical_once(first.tile, class, first.rotation);
    lemma_every_tile_is_canonical_once(second.tile, class, second.rotation);
}

/// The rotated tile of a rank has that rank, and it alone.
proof fn lemma_rank_names_one_rotated_tile(rotated_tile: RotatedTile)
    ensures
        0 <= rotated_tile.spec_rank() < 1024,
        rotated_tile_of_rank(rotated_tile.spec_rank() as int) == rotated_tile,
        rotated_tile.tile.0 == rotated_tile.spec_rank() / 4,
{
}

/// The list of the canonical tiles of a class among the first `ranks` rotated
/// tiles holds only rotated tiles of these that belong on it.
proof fn lemma_canonical_tiles_belong(class: Class, without_clues: bool, ranks: nat)
    requires
        ranks <= 1024,
    ensures
        forall|i: int|
            0 <= i < canonical_tiles(class, without_clues, ranks).len() ==> {
                let listed = #[trigger] canonical_tiles(class, without_clues, ranks)[i];
                listed.spec_rank() < ranks && is_listed(class, without_clues, listed)
            },
    decreases ranks,
{
    if ranks > 0 {
        let next = rotated_tile_of_rank(ranks - 1);
        lemma_canonical_tiles_belong(class, without_clues, (ranks - 1) as nat);
        assert(next.spec_rank() == ranks - 1);
    }
}

/// The list holds its rotated tiles by rising tile number.
proof fn lemma_canonical_tiles_rise(class: Class, without_clues: bool, ranks: nat)
    requires
        ranks <= 1024,
    ensures
        forall|i: int, j: int|
            0 <= i < j < canonical_tiles(class, without_clues, ranks).len() ==> (
            #[trigger] canonical_tiles(class, without_clues, ranks)[i]).tile.0 < (
            #[trigger] canonical_tiles(class, without_clues, ranks)[j]).tile.0,
    decreases ranks,
{
    if ranks > 0 {
        let earlier = canonical_tiles(class, without_clues, (ranks - 1) as nat);
        let list = canonical_tiles(class, without_clues, ranks);
        let next = rotated_tile_of_rank(ranks - 1);
        lemma_canonical_tiles_rise(class, without_clues, (ranks - 1) as nat);
        lemma_canonical_tiles_belong(class, without_clues, (ranks - 1) as nat);
        assert forall|i: int, j: int| 0 <= i < j < list.len() implies (#[trigger] list[i]).tile.0 < (
        #[trigger] list[j]).tile.0 by {
            if list.len() > earlier.len() && j == list.len() - 1 {
                assert(list[i] == earlier[i]);
                assert(list[j] == next);
                lemma_rank_names_one_rotated_tile(earlier[i]);
                assert(next.tile.0 == (ranks - 1) / 4);
                if earlier[i].tile == next.tile {
                    lemma_canonical_in_one_rotation(class, earlier[i], next);
                }
            } else {
                assert(list[i] == earlier[i]);
                assert(list[j] == earlier[j]);
            }
        }
    }
}

/// The list holds every rotated tile of the first `ranks` that belongs on it.
proof fn lemma_canonical_tiles_are_complete(
    class: Class,
    without_clues: bool,
    ranks: nat,
    rotated_tile: RotatedTile,
)
    requires
        ranks <= 1024,
        rotated_tile.spec_rank() < ranks,
        is_listed(class, without_clues, rotated_tile),
    ensures
        canonical_tiles(class, without_clues, ranks).contains(rotated_tile),
    decreases ranks,
{
    let earlier = canonical_tiles(class, without_clues, (ranks - 1) as nat);
    let list = canonical_tiles(class, without_clues, ranks);
    lemma_rank_names_one_rotated_tile(rotated_tile);
    if rotated_tile.spec_rank() == ranks - 1 {
        assert(list[list.len() - 1] == rotated_tile);
    } else {
        lemma_canonical_tiles_are_complete(class, without_clues, (ranks - 1) as nat, rotated_tile);
        let i = choose|i: int| 0 <= i < earlier.len() && earlier[i] == rotated_tile;
        assert(list[i] == rotated_tile);
    }
}

/// The list of the canonical tiles of a class among the first `ranks` rotated
/// tiles holds those of them that belong on it, and no others, by rising tile
/// number.
pub proof fn lemma_canonical_tiles_are_in_order(class: Class, without_clues: bool, ranks: nat)
    requires
        ranks <= 1024,
    ensures
        forall|i: int|
            0 <= i < canonical_tiles(class, without_clues, ranks).len() ==> {
                let listed = #[trigger] canonical_tiles(class, without_clues, ranks)[i];
                listed.spec_rank() < ranks && is_listed(class, without_clues, listed)
            },
        forall|i: int, j: int|
            0 <= i < j < canonical_tiles(class, without_clues, ranks).len() ==> (
            #[trigger] canonical_tiles(class, without_clues, ranks)[i]).tile.0 < (
            #[trigger] canonical_tiles(class, without_clues, ranks)[j]).tile.0,
        forall|rotated_tile: RotatedTile|
            rotated_tile.spec_rank() < ranks && #[trigger] is_listed(
                class,
                without_clues,
                rotated_tile,
            ) ==> canonical_tiles(class, without_clues, ranks).contains(rotated_tile),
{
    lemma_canonical_tiles_belong(class, without_clues, ranks);
    lemma_canonical_tiles_rise(class, without_clues, ranks);
    assert forall|rotated_tile: RotatedTile|
        rotated_tile.spec_rank() < ranks && #[trigger] is_listed(
            class,
            without_clues,
            rotated_tile,
        ) implies canonical_tiles(class, without_clues, ranks).contains(rotated_tile) by {
        lemma_canonical_tiles_are_complete(class, without_clues, ranks, rotated_tile);
    }
}

/// Every tile stands on the list of its class, in its canonical rotation, and
/// nowhere else on the three lists.
pub proof fn lemma_every_tile_is_listed_once(tile: Tile)
    ensures
        canonical_tiles(spec_class_of(tile), false, 1024).contains(
            RotatedTile { tile, rotation: spec_canonical_rotation(tile) },
        ),
        forall|class: Class, rotation: Rotation| #[trigger]
            canonical_tiles(class, false, 1024).contains(RotatedTile { tile, rotation }) ==> class
                == spec_class_of(tile) && rotation == spec_canonical_rotation(tile),
{
    let home = RotatedTile { tile, rotation: spec_canonical_rotation(tile) };
    lemma_canonical_tiles_are_in_order(spec_class_of(tile), false, 1024);
    lemma_every_tile_is_canonical_once(tile, spec_class_of(tile), spec_canonical_rotation(tile));
    assert(is_listed(spec_class_of(tile), false, home));
    assert forall|class: Class, rotation: Rotation| #[trigger]
        canonical_tiles(class, false, 1024).contains(RotatedTile { tile, rotation }) implies class
        == spec_class_of(tile) && rotation == spec_canonical_rotation(tile) by {
        lemma_canonical_tiles_are_in_order(class, false, 1024);
        lemma_every_tile_is_canonical_once(tile, class, rotation);
    }
}

/// Mosaics of one cell that hold different tiles show different grids,
/// whatever the rotations in which they are seen.
pub proof fn lemma_single_tiles_have_distinct_orbits(mosaics: Seq<ArrayMosaic<1, 1>>)
    requires
        forall|i: int, j: int|
            0 <= i < j < mosaics.len() ==> (#[trigger] single_tiles(mosaics)[i]).tile != (
            #[trigger] single_tiles(mosaics)[j]).tile,
    ensures
        orbits_distinct(mosaics),
{
    assert forall|k1: int, k2: int| 0 <= k1 < k2 < 4 * mosaics.len() implies #[trigger] orbit_member(
        mosaics,
        k1,
    ) != #[trigger] orbit_member(mosaics, k2) by {
        reveal(orbit_member);
        let first = RotatedSquareMosaic { mosaic: &mosaics[k1 / 4], rotation: Rotation::from_turns(k1 % 4) };
        let second = RotatedSquareMosaic { mosaic: &mosaics[k2 / 4], rotation: Rotation::from_turns(k2 % 4) };
        assert(grid(&first)[0][0] == first.spec_get(0, 0));
        assert(grid(&second)[0][0] == second.spec_get(0, 0));
        assert(single_tiles(mosaics)[k1 / 4] == mosaics[k1 / 4].spec_get(0, 0));
        assert(single_tiles(mosaics)[k2 / 4] == mosaics[k2 / 4].spec_get(0, 0));
    }
}

/// The mosaics of one cell that hold the canonical tiles of a class show
/// different grids, whatever the rotations in which they are seen.
pub proof fn lemma_canonical_tiles_have_distinct_orbits(
    class: Class,
    without_clues: bool,
    mosaics: Seq<ArrayMosaic<1, 1>>,
)
    requires
        single_tiles(mosaics) == canonical_tiles(class, without_clues, 1024),
    ensures
        orbits_distinct(mosaics),
{
    lemma_canonical_tiles_rise(class, without_clues, 1024);
    lemma_single_tiles_have_distinct_orbits(mosaics);
}

} // verus!
