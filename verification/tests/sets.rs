use std::collections::{BTreeMap, BTreeSet};

use eternity_ii::edge::ArrayEdge;
use eternity_ii::mosaic::{
    edge, horizontal_edge, to_array_mosaic, vertical_edge, ArrayMosaic, RectangularMosaic,
    RotatedRectangularMosaic, RotatedSquareMosaic,
};
use eternity_ii::rectangular::{HorizontalSide, RectangularRotation, VerticalSide};
use eternity_ii::set::index::RotatedIndex;
use eternity_ii::set::rectangle::RectangularMosaicSet;
use eternity_ii::set::square::SquareMosaicSet;
use eternity_ii::{RotatedTile, Rotation, Side, Tile};

fn grid<const W: usize, const H: usize>(ids: [[u8; W]; H]) -> ArrayMosaic<W, H> {
    ArrayMosaic {
        tiles: ids.map(|row| {
            row.map(|id| RotatedTile {
                tile: Tile::from_primitive(id),
                rotation: Rotation::Identity,
            })
        }),
    }
}

fn cells_of_squares<const N: usize>(
    found: Vec<(usize, RotatedSquareMosaic<'_, N, ArrayMosaic<N, N>>)>,
) -> BTreeSet<(usize, ArrayMosaic<N, N>)> {
    BTreeSet::from_iter(
        found
            .into_iter()
            .map(|(slot, view)| (slot, to_array_mosaic(&view))),
    )
}

fn cells_of_rectangles<const W: usize, const H: usize>(
    found: Vec<(usize, RotatedRectangularMosaic<'_, W, H, ArrayMosaic<W, H>>)>,
) -> BTreeSet<(usize, ArrayMosaic<W, H>)> {
    BTreeSet::from_iter(
        found
            .into_iter()
            .map(|(slot, view)| (slot, to_array_mosaic(&view))),
    )
}

fn expected<const W: usize, const H: usize, M: RectangularMosaic<W, H>>(
    views: &[(usize, M)],
) -> BTreeSet<(usize, ArrayMosaic<W, H>)> {
    BTreeSet::from_iter(views.iter().map(|(slot, view)| (*slot, to_array_mosaic(view))))
}

#[test]
fn square_iter_by_edge() {
    let mosaic = grid([[0, 1], [16, 17]]);
    let edge_aa = ArrayEdge::from_byte_string(b"aa");
    let edge_fi = ArrayEdge::from_byte_string(b"fi");
    let edge_or = ArrayEdge::from_byte_string(b"or");
    let identity = &mosaic + Rotation::Identity;
    let quarter_turn_left = &mosaic + Rotation::QuarterTurnLeft;
    let half_turn = &mosaic + Rotation::HalfTurn;
    let quarter_turn_right = &mosaic + Rotation::QuarterTurnRight;

    let mut set = SquareMosaicSet::new();
    set.insert(mosaic);

    let iter_by_edge_as_btree = |side| {
        BTreeMap::from_iter(
            set.iter_by_edge(side)
                .into_iter()
                .map(|(edge, mosaics)| (edge, cells_of_squares(mosaics))),
        )
    };
    assert_eq!(
        iter_by_edge_as_btree(Side::Right),
        BTreeMap::from_iter([
            (edge_aa, expected(&[(0, half_turn), (0, quarter_turn_right)])),
            (edge_fi, expected(&[(0, identity)])),
            (edge_or, expected(&[(0, quarter_turn_left)])),
        ]),
    );
    assert_eq!(
        iter_by_edge_as_btree(Side::Top),
        BTreeMap::from_iter([
            (edge_aa, expected(&[(0, identity), (0, quarter_turn_right)])),
            (edge_fi, expected(&[(0, quarter_turn_left)])),
            (edge_or, expected(&[(0, half_turn)])),
        ]),
    );
    assert_eq!(
        iter_by_edge_as_btree(Side::Left),
        BTreeMap::from_iter([
            (edge_aa, expected(&[(0, identity), (0, quarter_turn_left)])),
            (edge_fi, expected(&[(0, half_turn)])),
            (edge_or, expected(&[(0, quarter_turn_right)])),
        ]),
    );
    assert_eq!(
        iter_by_edge_as_btree(Side::Bottom),
        BTreeMap::from_iter([
            (edge_aa, expected(&[(0, quarter_turn_left), (0, half_turn)])),
            (edge_fi, expected(&[(0, quarter_turn_right)])),
            (edge_or, expected(&[(0, identity)])),
        ]),
    );

    assert_eq!(
        cells_of_squares(set.query(Side::Right, &edge_aa)),
        expected(&[(0, half_turn), (0, quarter_turn_right)]),
    );
    assert_eq!(
        cells_of_squares(set.query(Side::Right, &edge_fi)),
        expected(&[(0, identity)]),
    );
    assert_eq!(
        cells_of_squares(set.query(Side::Right, &edge_or)),
        expected(&[(0, quarter_turn_left)]),
    );
    assert_eq!(
        cells_of_squares(set.query(Side::Top, &edge_aa)),
        expected(&[(0, identity), (0, quarter_turn_right)]),
    );
    assert_eq!(
        cells_of_squares(set.query(Side::Top, &edge_fi)),
        expected(&[(0, quarter_turn_left)]),
    );
    assert_eq!(
        cells_of_squares(set.query(Side::Top, &edge_or)),
        expected(&[(0, half_turn)]),
    );
    assert_eq!(
        cells_of_squares(set.query(Side::Left, &edge_aa)),
        expected(&[(0, identity), (0, quarter_turn_left)]),
    );
    assert_eq!(
        cells_of_squares(set.query(Side::Left, &edge_fi)),
        expected(&[(0, half_turn)]),
    );
    assert_eq!(
        cells_of_squares(set.query(Side::Left, &edge_or)),
        expected(&[(0, quarter_turn_right)]),
    );
    assert_eq!(
        cells_of_squares(set.query(Side::Bottom, &edge_aa)),
        expected(&[(0, quarter_turn_left), (0, half_turn)]),
    );
    assert_eq!(
        cells_of_squares(set.query(Side::Bottom, &edge_fi)),
        expected(&[(0, quarter_turn_right)]),
    );
    assert_eq!(
        cells_of_squares(set.query(Side::Bottom, &edge_or)),
        expected(&[(0, identity)]),
    );
}

#[test]
fn rectangle_iter_by_edge() {
    let mosaic = grid([[0, 1, 2], [16, 17, 18]]);
    let edge_bv = ArrayEdge::from_byte_string(b"bv");
    let edge_aa = ArrayEdge::from_byte_string(b"aa");
    let edge_aaa = ArrayEdge::from_byte_string(b"aaa");
    let edge_sor = ArrayEdge::from_byte_string(b"sor");
    let identity = &mosaic + RectangularRotation::Identity;
    let half_turn = &mosaic + RectangularRotation::HalfTurn;

    let mut set = RectangularMosaicSet::new();
    set.insert(mosaic);

    let iter_by_vertical_edge_as_btree = |side| {
        BTreeMap::from_iter(
            set.iter_by_vertical_edge(side)
                .into_iter()
                .map(|(edge, mosaics)| (edge, cells_of_rectangles(mosaics))),
        )
    };
    let iter_by_horizontal_edge_as_btree = |side| {
        BTreeMap::from_iter(
            set.iter_by_horizontal_edge(side)
                .into_iter()
                .map(|(edge, mosaics)| (edge, cells_of_rectangles(mosaics))),
        )
    };
    assert_eq!(
        iter_by_vertical_edge_as_btree(VerticalSide::Right),
        BTreeMap::from_iter([
            (edge_aa, expected(&[(0, half_turn)])),
            (edge_bv, expected(&[(0, identity)])),
        ]),
    );
    assert_eq!(
        iter_by_horizontal_edge_as_btree(HorizontalSide::Top),
        BTreeMap::from_iter([
            (edge_aaa, expected(&[(0, identity)])),
            (edge_sor, expected(&[(0, half_turn)])),
        ]),
    );
    assert_eq!(
        iter_by_vertical_edge_as_btree(VerticalSide::Left),
        BTreeMap::from_iter([
            (edge_aa, expected(&[(0, identity)])),
            (edge_bv, expected(&[(0, half_turn)])),
        ]),
    );
    assert_eq!(
        iter_by_horizontal_edge_as_btree(HorizontalSide::Bottom),
        BTreeMap::from_iter([
            (edge_aaa, expected(&[(0, half_turn)])),
            (edge_sor, expected(&[(0, identity)])),
        ]),
    );

    assert_eq!(
        cells_of_rectangles(set.query_vertical(VerticalSide::Right, &edge_bv)),
        expected(&[(0, identity)]),
    );
    assert_eq!(
        cells_of_rectangles(set.query_vertical(VerticalSide::Right, &edge_aa)),
        expected(&[(0, half_turn)]),
    );
    assert_eq!(
        cells_of_rectangles(set.query_horizontal(HorizontalSide::Top, &edge_aaa)),
        expected(&[(0, identity)]),
    );
    assert_eq!(
        cells_of_rectangles(set.query_horizontal(HorizontalSide::Top, &edge_sor)),
        expected(&[(0, half_turn)]),
    );
    assert_eq!(
        cells_of_rectangles(set.query_vertical(VerticalSide::Left, &edge_bv)),
        expected(&[(0, half_turn)]),
    );
    assert_eq!(
        cells_of_rectangles(set.query_vertical(VerticalSide::Left, &edge_aa)),
        expected(&[(0, identity)]),
    );
    assert_eq!(
        cells_of_rectangles(set.query_horizontal(HorizontalSide::Bottom, &edge_aaa)),
        expected(&[(0, half_turn)]),
    );
    assert_eq!(
        cells_of_rectangles(set.query_horizontal(HorizontalSide::Bottom, &edge_sor)),
        expected(&[(0, identity)]),
    );
}

#[test]
fn query_finds_exactly_the_views_that_show_the_edge() {
    let mosaics = [
        grid([[0, 1], [16, 17]]),
        grid([[17, 18], [33, 34]]),
        grid([[1, 2], [17, 18]]),
        grid([[18, 19], [34, 35]]),
    ];
    let mut set = SquareMosaicSet::new();
    for mosaic in mosaics {
        set.insert(mosaic);
    }
    assert_eq!(set.len(), 4);
    assert_eq!(set.iter_mosaics().as_slice(), &mosaics[..]);
    let mut seen = BTreeSet::new();
    for side in Side::iter() {
        for (key, found) in set.iter_by_edge(side) {
            let queried = set.query(side, &key);
            assert_eq!(queried.len(), found.len());
            assert!(!found.is_empty());
            for ((slot, view), (other_slot, other)) in found.into_iter().zip(queried) {
                assert_eq!(slot, other_slot);
                assert_eq!(view.rotation, other.rotation);
                assert_eq!(view.mosaic, &mosaics[slot]);
                assert_eq!(edge(&view, side), key);
                assert!(seen.insert((side, slot, view.rotation)));
            }
        }
    }
    assert_eq!(seen.len(), 4 * 4 * 4);
    let absent = ArrayEdge::from_byte_string(b"ww");
    for side in Side::iter() {
        assert!(set.query(side, &absent).is_empty());
    }
}

#[test]
fn edges_of_a_set_stand_in_ascending_order() {
    let mut set = SquareMosaicSet::new();
    for mosaic in [
        grid([[35, 34], [19, 18]]),
        grid([[0, 1], [16, 17]]),
        grid([[17, 18], [33, 34]]),
    ] {
        set.insert(mosaic);
    }
    let keys: Vec<ArrayEdge<2>> = (0..set.bucket_count())
        .map(|j| set.bucket_edge(j))
        .collect();
    assert!(!keys.is_empty());
    assert!(keys.windows(2).all(|pair| pair[0] < pair[1]));
    let listed: Vec<ArrayEdge<2>> = set
        .iter_by_edge(Side::Right)
        .into_iter()
        .map(|(key, _)| key)
        .collect();
    assert_eq!(listed, keys);
}

#[test]
fn extend_moves_the_slots_of_the_other_set_up() {
    let first = [grid([[0, 1], [16, 17]]), grid([[17, 18], [33, 34]])];
    let second = [grid([[1, 2], [17, 18]]), grid([[18, 19], [34, 35]])];
    let mut whole = SquareMosaicSet::new();
    for mosaic in first.into_iter().chain(second) {
        whole.insert(mosaic);
    }
    let mut merged = SquareMosaicSet::new();
    for mosaic in first {
        merged.insert(mosaic);
    }
    let mut other = SquareMosaicSet::new();
    for mosaic in second {
        other.insert(mosaic);
    }
    merged.extend(other);
    assert_eq!(merged.len(), 4);
    assert_eq!(merged.iter_mosaics(), whole.iter_mosaics());
    for side in Side::iter() {
        let of_whole = whole.iter_by_edge(side);
        let of_merged = merged.iter_by_edge(side);
        assert_eq!(of_whole.len(), of_merged.len());
        for ((key, found), (other_key, other_found)) in of_whole.into_iter().zip(of_merged) {
            assert_eq!(key, other_key);
            assert_eq!(
                found
                    .iter()
                    .map(|(slot, view)| (*slot, view.rotation))
                    .collect::<Vec<_>>(),
                other_found
                    .iter()
                    .map(|(slot, view)| (*slot, view.rotation))
                    .collect::<Vec<_>>(),
            );
        }
    }
    let moved = merged.get(RotatedIndex {
        index: 3,
        rotation: Rotation::HalfTurn,
    });
    assert_eq!(moved.mosaic, &second[1]);
    assert_eq!(moved.rotation, Rotation::HalfTurn);
}

#[test]
fn rectangles_extend_in_both_indexes() {
    let first = grid([[0, 1, 2], [16, 17, 18]]);
    let second = grid([[1, 2, 3], [17, 18, 19]]);
    let mut whole = RectangularMosaicSet::new();
    whole.insert(first);
    whole.insert(second);
    let mut merged = RectangularMosaicSet::new();
    merged.insert(first);
    let mut other = RectangularMosaicSet::new();
    other.insert(second);
    merged.extend(other);
    assert_eq!(merged.len(), 2);
    assert_eq!(merged.iter_mosaics(), whole.iter_mosaics());
    for side in [VerticalSide::Right, VerticalSide::Left] {
        let keys: Vec<ArrayEdge<2>> = (0..merged.vertical_bucket_count())
            .map(|j| merged.vertical_bucket_edge(j))
            .collect();
        assert!(keys.windows(2).all(|pair| pair[0] < pair[1]));
        for (key, found) in merged.iter_by_vertical_edge(side) {
            assert!(keys.contains(&key));
            assert_eq!(
                cells_of_rectangles(found),
                cells_of_rectangles(whole.query_vertical(side, &key))
            );
            for (_, view) in whole.query_vertical(side, &key) {
                assert_eq!(vertical_edge(&view, side), key);
            }
        }
    }
    for side in [HorizontalSide::Top, HorizontalSide::Bottom] {
        let keys: Vec<ArrayEdge<3>> = (0..merged.horizontal_bucket_count())
            .map(|j| merged.horizontal_bucket_edge(j))
            .collect();
        assert!(keys.windows(2).all(|pair| pair[0] < pair[1]));
        for (key, found) in merged.iter_by_horizontal_edge(side) {
            assert!(keys.contains(&key));
            assert_eq!(
                cells_of_rectangles(found),
                cells_of_rectangles(whole.query_horizontal(side, &key))
            );
            for (_, view) in whole.query_horizontal(side, &key) {
                assert_eq!(horizontal_edge(&view, side), key);
            }
        }
    }
    let moved = merged.get(RotatedIndex {
        index: 1,
        rotation: RectangularRotation::HalfTurn,
    });
    assert_eq!(moved.mosaic, &second);
}

#[test]
fn sets_of_distinct_mosaics_are_distinct() {
    let mut set = SquareMosaicSet::new();
    assert!(set.is_distinct());
    set.insert(grid([[0, 1], [16, 17]]));
    set.insert(grid([[17, 18], [33, 34]]));
    assert!(set.is_distinct());
    set.assert_distinct();

    let mut rectangles = RectangularMosaicSet::new();
    rectangles.insert(grid([[0, 1, 2], [16, 17, 18]]));
    rectangles.insert(grid([[1, 2, 3], [17, 18, 19]]));
    assert!(rectangles.is_distinct());
    rectangles.assert_distinct();
}

#[test]
fn a_mosaic_and_its_rotation_are_not_distinct() {
    let mosaic = grid([[0, 1], [16, 17]]);
    let turned = to_array_mosaic(&mosaic.with_square_rotation(Rotation::QuarterTurnLeft));
    let mut set = SquareMosaicSet::new();
    set.insert(mosaic);
    set.insert(turned);
    assert!(!set.is_distinct());

    let mut twice = SquareMosaicSet::new();
    twice.insert(mosaic);
    twice.insert(grid([[17, 18], [33, 34]]));
    twice.insert(mosaic);
    assert!(!twice.is_distinct());

    let rectangle = grid([[0, 1, 2], [16, 17, 18]]);
    let upside_down =
        to_array_mosaic(&rectangle.with_rectangular_rotation(RectangularRotation::HalfTurn));
    let mut rectangles = RectangularMosaicSet::new();
    rectangles.insert(rectangle);
    rectangles.insert(upside_down);
    assert!(!rectangles.is_distinct());
}

#[test]
fn a_rectangular_set_without_columns_is_empty() {
    let mut set: RectangularMosaicSet<0, 3, ArrayMosaic<0, 3>> = RectangularMosaicSet::new();
    assert_eq!(set.len(), 0);
    set.extend(RectangularMosaicSet::new());
    assert_eq!(set.len(), 0);
    assert_eq!(set.vertical_bucket_count(), 0);
    assert_eq!(set.horizontal_bucket_count(), 0);
    assert!(set.is_distinct());
}
