use eternity_ii::edge::ArrayEdge;
use eternity_ii::mosaic::{
    horizontal_edge, to_array_mosaic, vertical_edge, ArrayMosaic, RectangularMosaic,
    RotatedSquareMosaic,
};
use eternity_ii::rectangular::{HorizontalSide, RectangularRotation, VerticalSide};
use eternity_ii::set::builder::counting::CountingSetBuilder;
use eternity_ii::set::builder::counting_sampling::CountingSamplingSetBuilder;
use eternity_ii::set::builder::in_memory_rectangular_mosaic::InMemoryRectangularMosaicSetBuilder;
use eternity_ii::set::builder::in_memory_square_mosaic::InMemorySquareMosaicSetBuilder;
use eternity_ii::set::builder::{count_one_more, count_sum, SetBuilder, ShardBuilder};
use eternity_ii::set::combine::{
    combine_rectangles_vertically_to_square, combine_squares_horizontally_to_rectangle,
};
use eternity_ii::set::filter::{
    lesser, min_rotated_tile, Any, Filter, Filtering, LeastTile, LeastTileUpright,
    LeastTileUprightOrLeft, MemoFilter, Memoizer, RectangleRotated, SquareRotated, Unmemoized,
};
use eternity_ii::set::square::SquareMosaicSet;
use eternity_ii::set::{
    build_1x1_sets, build_1x1_sets_with_clues, build_rectangles, build_rectangles_memo,
    build_rectangular_centers, build_rectangular_corners, build_rectangular_edges,
    build_square_corners, build_square_edges, build_squares, fill_rectangle_shard,
    is_canonical_center, is_canonical_corner, is_canonical_edge, is_clue_tile, single,
};
use eternity_ii::{RotatedTile, Rotation, Side, Tile};

fn cell(tile: u8, rotation: Rotation) -> RotatedTile {
    RotatedTile {
        tile: Tile::from_primitive(tile),
        rotation,
    }
}

fn grid<const W: usize, const H: usize>(ids: [[u8; W]; H]) -> ArrayMosaic<W, H> {
    ArrayMosaic {
        tiles: ids.map(|row| row.map(|id| cell(id, Rotation::Identity))),
    }
}

fn tiles_of<const W: usize, const H: usize>(mosaic: &ArrayMosaic<W, H>) -> Vec<u8> {
    mosaic
        .tiles
        .iter()
        .flat_map(|row| row.iter().map(|cell| cell.tile.to_primitive()))
        .collect()
}

fn uses_tiles_once<const W: usize, const H: usize>(mosaic: &ArrayMosaic<W, H>) -> bool {
    let mut tiles = tiles_of(mosaic);
    tiles.sort();
    tiles.windows(2).all(|pair| pair[0] != pair[1])
}

#[test]
fn every_tile_is_canonical_in_one_way_and_one_rotation() {
    let mut corners = 0;
    let mut edges = 0;
    let mut centers = 0;
    for tile in Tile::values() {
        let mut ways = 0;
        for rotation in Rotation::iter() {
            let rotated_tile = RotatedTile { tile, rotation };
            let corner = is_canonical_corner(rotated_tile);
            let edge = is_canonical_edge(rotated_tile);
            let center = is_canonical_center(rotated_tile);
            assert!(corner as u8 + edge as u8 + center as u8 <= 1);
            corners += corner as usize;
            edges += edge as usize;
            centers += center as usize;
            ways += corner as u8 + edge as u8 + center as u8;
        }
        assert_eq!(ways, 1);
    }
    assert_eq!((corners, edges, centers), (4, 56, 196));
}

#[test]
fn the_sets_of_one_cell_hold_the_canonical_tiles() {
    let (corners, edges, centers) = build_1x1_sets();
    assert_eq!(corners.len(), 4);
    assert_eq!(edges.len(), 56);
    assert_eq!(centers.len(), 196);
    let corner_tiles: Vec<RotatedTile> = corners
        .iter_mosaics()
        .iter()
        .map(|mosaic| mosaic.get(0, 0))
        .collect();
    assert_eq!(
        corner_tiles,
        vec![
            cell(0, Rotation::Identity),
            cell(15, Rotation::QuarterTurnLeft),
            cell(240, Rotation::QuarterTurnRight),
            cell(255, Rotation::HalfTurn),
        ]
    );
    assert_eq!(edges.iter_mosaics()[0].get(0, 0), cell(1, Rotation::QuarterTurnLeft));
    assert_eq!(centers.iter_mosaics()[0].get(0, 0), cell(17, Rotation::Identity));
    assert!(edges
        .iter_mosaics()
        .iter()
        .all(|mosaic| is_canonical_edge(mosaic.get(0, 0))));
    assert!(centers
        .iter_mosaics()
        .iter()
        .all(|mosaic| is_canonical_center(mosaic.get(0, 0))));
    assert!(corners.is_distinct());
    assert!(edges.is_distinct());
    assert!(centers.is_distinct());
}

#[test]
fn the_clue_tiles_are_set_apart() {
    let (corners, edges, centers, c3, c14, i8, n3, n14) = build_1x1_sets_with_clues();
    assert_eq!(corners.len(), 4);
    assert_eq!(edges.len(), 56);
    assert_eq!(centers.len(), 191);
    assert!(centers
        .iter_mosaics()
        .iter()
        .all(|mosaic| !is_clue_tile(mosaic.get(0, 0).tile)));
    for (set, tile) in [
        (&c3, cell(76, Rotation::Identity)),
        (&c14, cell(179, Rotation::QuarterTurnLeft)),
        (&i8, cell(135, Rotation::Identity)),
        (&n3, cell(211, Rotation::HalfTurn)),
        (&n14, cell(125, Rotation::QuarterTurnRight)),
    ] {
        assert_eq!(set.len(), 1);
        assert_eq!(set.iter_mosaics()[0], single(tile));
        assert!(is_clue_tile(tile.tile));
    }
    assert!(!is_clue_tile(Tile::from_primitive(77)));
}

#[test]
fn side_by_side_keeps_the_halves_and_refuses_a_tile_twice() {
    let left = grid([[0, 1], [16, 17]]);
    let right = grid([[2, 3], [18, 19]]);
    let combined: Option<ArrayMosaic<4, 2>> = combine_squares_horizontally_to_rectangle(left, right);
    assert_eq!(combined, Some(grid([[0, 1, 2, 3], [16, 17, 18, 19]])));
    let turned = right.with_square_rotation(Rotation::HalfTurn);
    let combined: Option<ArrayMosaic<4, 2>> = combine_squares_horizontally_to_rectangle(left, turned);
    assert_eq!(
        combined.unwrap().tiles[0],
        [
            cell(0, Rotation::Identity),
            cell(1, Rotation::Identity),
            cell(19, Rotation::HalfTurn),
            cell(18, Rotation::HalfTurn)
        ]
    );
    let shared: Option<ArrayMosaic<4, 2>> =
        combine_squares_horizontally_to_rectangle(left, grid([[2, 3], [18, 0]]));
    assert_eq!(shared, None);
    let twice_in_one: Option<ArrayMosaic<4, 2>> =
        combine_squares_horizontally_to_rectangle(grid([[0, 1], [16, 0]]), right);
    assert_eq!(twice_in_one, None);
    let last: Option<ArrayMosaic<2, 1>> =
        combine_squares_horizontally_to_rectangle(grid([[255]]), grid([[255]]));
    assert_eq!(last, None);
    let ends: Option<ArrayMosaic<2, 1>> =
        combine_squares_horizontally_to_rectangle(grid([[255]]), grid([[0]]));
    assert_eq!(ends, Some(grid([[255, 0]])));
}

#[test]
fn stacking_keeps_the_halves_and_refuses_a_tile_twice() {
    let upper = grid([[0, 1, 2, 3], [16, 17, 18, 19]]);
    let lower = grid([[32, 33, 34, 35], [48, 49, 50, 51]]);
    let combined: Option<ArrayMosaic<4, 4>> = combine_rectangles_vertically_to_square(upper, lower);
    assert_eq!(
        combined,
        Some(grid([
            [0, 1, 2, 3],
            [16, 17, 18, 19],
            [32, 33, 34, 35],
            [48, 49, 50, 51]
        ]))
    );
    let shared: Option<ArrayMosaic<4, 4>> = combine_rectangles_vertically_to_square(
        upper,
        grid([[32, 33, 34, 35], [48, 49, 50, 19]]),
    );
    assert_eq!(shared, None);
    let small: Option<ArrayMosaic<2, 2>> =
        combine_rectangles_vertically_to_square(grid([[7, 8]]), grid([[9, 10]]));
    assert_eq!(small, Some(grid([[7, 8], [9, 10]])));
}

#[test]
fn the_least_tile_goes_by_tile_number_then_rotation() {
    let mosaic = ArrayMosaic {
        tiles: [
            [cell(40, Rotation::Identity), cell(7, Rotation::HalfTurn)],
            [cell(7, Rotation::QuarterTurnLeft), cell(200, Rotation::Identity)],
        ],
    };
    assert_eq!(min_rotated_tile(mosaic), cell(7, Rotation::QuarterTurnLeft));
    assert_eq!(
        min_rotated_tile(mosaic.with_square_rotation(Rotation::QuarterTurnRight)),
        cell(7, Rotation::Identity)
    );
    let empty: ArrayMosaic<0, 0> = ArrayMosaic { tiles: [] };
    assert_eq!(min_rotated_tile(empty), RotatedTile::maximum());
    assert_eq!(
        lesser(cell(3, Rotation::HalfTurn), cell(3, Rotation::QuarterTurnLeft)),
        cell(3, Rotation::QuarterTurnLeft)
    );
    assert_eq!(
        lesser(cell(3, Rotation::HalfTurn), cell(4, Rotation::Identity)),
        cell(3, Rotation::HalfTurn)
    );
}

#[test]
fn the_rules_take_what_they_say() {
    let mosaic = grid([[40, 7], [8, 200]]);
    let upright = mosaic.with_square_rotation(Rotation::Identity);
    let left = mosaic.with_square_rotation(Rotation::QuarterTurnLeft);
    let half = mosaic.with_square_rotation(Rotation::HalfTurn);
    assert!(Any.accepts(upright));
    assert!(SquareRotated(Rotation::HalfTurn).accepts(half));
    assert!(!SquareRotated(Rotation::HalfTurn).accepts(left));
    assert_eq!(Filtering(SquareRotated(Rotation::Identity)).memo(upright), Some(()));
    assert_eq!(Filtering(SquareRotated(Rotation::Identity)).memo(left), None);
    assert!(Unmemoized(Any).accepts(&(), half));
    assert!(!Unmemoized(SquareRotated(Rotation::Identity)).accepts(&(), half));
    assert_eq!(LeastTile.memo(left), Some(cell(7, Rotation::QuarterTurnLeft)));
    assert!(LeastTileUprightOrLeft.accepts(&cell(9, Rotation::HalfTurn), left));
    assert!(LeastTileUprightOrLeft.accepts(&cell(9, Rotation::HalfTurn), upright));
    assert!(!LeastTileUprightOrLeft.accepts(&cell(9, Rotation::HalfTurn), half));
    assert!(LeastTileUprightOrLeft.accepts(&cell(5, Rotation::Identity), half));
    assert!(!LeastTileUprightOrLeft.accepts(&cell(5, Rotation::QuarterTurnRight), upright));

    let rectangle = grid([[40, 7, 9]]);
    let same = rectangle.with_rectangular_rotation(RectangularRotation::Identity);
    let turned = rectangle.with_rectangular_rotation(RectangularRotation::HalfTurn);
    assert!(RectangleRotated(RectangularRotation::Identity).accepts(same));
    assert!(!RectangleRotated(RectangularRotation::Identity).accepts(turned));
    assert_eq!(LeastTile.memo(turned), Some(cell(7, Rotation::HalfTurn)));
    assert!(LeastTileUpright.accepts(&cell(9, Rotation::HalfTurn), same));
    assert!(!LeastTileUpright.accepts(&cell(9, Rotation::HalfTurn), turned));
    assert!(!LeastTileUpright.accepts(&cell(5, Rotation::QuarterTurnLeft), same));
}

#[test]
fn a_corner_and_an_edge_that_fit_give_one_rectangle() {
    let corner = single(cell(0, Rotation::Identity));
    let edge = single(cell(1, Rotation::QuarterTurnLeft));
    let mut corners = SquareMosaicSet::new();
    corners.insert(corner);
    let mut edges = SquareMosaicSet::new();
    edges.insert(edge);
    let rectangles = build_rectangular_corners::<1, 2, _, _, _>(
        InMemoryRectangularMosaicSetBuilder::<2, 1, _>::new(),
        &corners,
        &edges,
    );
    assert_eq!(rectangles.len(), 1);
    let rectangle = rectangles.iter_mosaics()[0];
    assert_eq!(
        rectangle.tiles,
        [[cell(0, Rotation::Identity), cell(1, Rotation::Identity)]]
    );
    assert_eq!(
        vertical_edge(&rectangle, VerticalSide::Left),
        vertical_edge(&corner, VerticalSide::Left)
    );
    assert_eq!(vertical_edge(&rectangle, VerticalSide::Left).to_string(), "a");
    let turned_edge = RotatedSquareMosaic {
        mosaic: &edge,
        rotation: Rotation::QuarterTurnRight,
    };
    assert_eq!(
        vertical_edge(&rectangle, VerticalSide::Right),
        vertical_edge(&turned_edge, VerticalSide::Right)
    );
    assert_eq!(vertical_edge(&rectangle, VerticalSide::Right).to_string(), "f");
    assert_eq!(
        vertical_edge(&corner, VerticalSide::Right),
        vertical_edge(&turned_edge, VerticalSide::Left).reversed()
    );

    let mut others = SquareMosaicSet::new();
    others.insert(single(cell(2, Rotation::QuarterTurnLeft)));
    let none = build_rectangular_corners::<1, 2, _, _, _>(
        InMemoryRectangularMosaicSetBuilder::<2, 1, _>::new(),
        &corners,
        &others,
    );
    assert_eq!(none.len(), 0);
}

#[test]
fn the_first_doubling_gives_the_known_numbers_of_rectangles() {
    let (corners, edges, centers) = build_1x1_sets();
    let rectangular_corners = build_rectangular_corners::<1, 2, _, _, _>(
        InMemoryRectangularMosaicSetBuilder::<2, 1, _>::new(),
        &corners,
        &edges,
    );
    let rectangular_edges = build_rectangular_edges::<1, 2, _, _, _>(
        InMemoryRectangularMosaicSetBuilder::<2, 1, _>::new(),
        &edges,
        &centers,
    );
    let rectangular_centers = build_rectangular_centers::<1, 2, _, _>(
        InMemoryRectangularMosaicSetBuilder::<2, 1, _>::new(),
        &centers,
    );
    assert_eq!(rectangular_corners.len(), 45);
    assert_eq!(rectangular_edges.len(), 2548);
    assert_eq!(rectangular_centers.len(), 17640);
    assert_eq!(
        rectangular_corners.iter_mosaics()[0].tiles,
        [[cell(15, Rotation::QuarterTurnLeft), cell(3, Rotation::Identity)]]
    );
    assert_eq!(
        rectangular_edges.iter_mosaics()[0].tiles,
        [[cell(5, Rotation::QuarterTurnLeft), cell(21, Rotation::QuarterTurnLeft)]]
    );
    assert_eq!(
        rectangular_centers.iter_mosaics()[0].tiles,
        [[cell(23, Rotation::QuarterTurnLeft), cell(21, Rotation::QuarterTurnLeft)]]
    );
    assert!(rectangular_corners.is_distinct());
    rectangular_corners.assert_distinct();
    for mosaic in rectangular_corners
        .iter_mosaics()
        .iter()
        .chain(rectangular_edges.iter_mosaics())
        .chain(rectangular_centers.iter_mosaics())
    {
        assert!(uses_tiles_once(mosaic));
        assert_eq!(
            mosaic.get(0, 0).color(Side::Right),
            mosaic.get(1, 0).color(Side::Left)
        );
    }
}

#[test]
fn counting_gives_the_number_that_building_gives() {
    let (corners, edges, centers) = build_1x1_sets();
    let corner_count =
        build_rectangular_corners::<1, 2, _, _, _>(CountingSetBuilder::new(), &corners, &edges);
    let edge_count =
        build_rectangular_edges::<1, 2, _, _, _>(CountingSetBuilder::new(), &edges, &centers);
    let center_count =
        build_rectangular_centers::<1, 2, _, _>(CountingSetBuilder::new(), &centers);
    assert_eq!((corner_count, edge_count, center_count), (45, 2548, 17640));
    let built = build_rectangular_edges::<1, 2, _, _, _>(
        InMemoryRectangularMosaicSetBuilder::<2, 1, _>::new(),
        &edges,
        &centers,
    );
    assert_eq!(built.len(), edge_count);
    let filtered = build_rectangles::<1, 2, _, _, _, _, _>(
        CountingSetBuilder::new(),
        &edges,
        SquareRotated(Rotation::Identity),
        &centers,
        SquareRotated(Rotation::HalfTurn),
    );
    let filtered_built = build_rectangles::<1, 2, _, _, _, _, _>(
        InMemoryRectangularMosaicSetBuilder::<2, 1, _>::new(),
        &edges,
        SquareRotated(Rotation::Identity),
        &centers,
        SquareRotated(Rotation::HalfTurn),
    );
    assert_eq!(filtered_built.len(), filtered);
    assert!(0 < filtered && filtered < edge_count);
}

#[test]
fn a_sample_is_the_first_item_and_passes_every_test() {
    let (_, edges, centers) = build_1x1_sets();
    let (count, sample) = build_rectangular_centers::<1, 2, _, _>(
        CountingSamplingSetBuilder::new(),
        &centers,
    );
    assert_eq!(count, 17640);
    let sample = sample.unwrap();
    let built = build_rectangular_centers::<1, 2, _, _>(
        InMemoryRectangularMosaicSetBuilder::<2, 1, _>::new(),
        &centers,
    );
    assert_eq!(sample, built.iter_mosaics()[0]);
    assert!(uses_tiles_once(&sample));
    assert_eq!(
        sample.get(0, 0).color(Side::Right),
        sample.get(1, 0).color(Side::Left)
    );
    let least = min_rotated_tile(sample);
    assert!(least.rotation == Rotation::Identity || least.rotation == Rotation::QuarterTurnLeft);
    for x in 0..2 {
        assert!(is_canonical_center(RotatedTile {
            tile: sample.get(x, 0).tile,
            rotation: Rotation::Identity
        }));
    }

    let mut none = SquareMosaicSet::new();
    none.insert(single(cell(0, Rotation::Identity)));
    let (count, sample) = build_rectangular_edges::<1, 2, _, _, _>(
        CountingSamplingSetBuilder::new(),
        &edges,
        &none,
    );
    assert_eq!((count, sample), (0, None));
}

#[test]
fn shards_of_any_size_give_the_same_set() {
    let (_, edges, centers) = build_1x1_sets();
    let whole = build_rectangular_edges::<1, 2, _, _, _>(
        InMemoryRectangularMosaicSetBuilder::<2, 1, _>::new(),
        &edges,
        &centers,
    );
    let a_memo = Filtering(SquareRotated(Rotation::Identity));
    let b_filter = Unmemoized(Any);
    for shard_size in [1, 3, 1000] {
        let mut builder = InMemoryRectangularMosaicSetBuilder::<2, 1, _>::new();
        let mut j = 0;
        let mut shards = 0;
        while j < edges.bucket_count() {
            let mut shard = builder.new_shard();
            for _ in 0..shard_size {
                if j < edges.bucket_count() {
                    fill_rectangle_shard::<1, 2, _, _, _, _, _>(
                        &mut shard, &edges, j, &a_memo, &centers, &b_filter,
                    );
                    j += 1;
                }
            }
            builder.merge(shard.finish());
            shards += 1;
        }
        assert!(shard_size > 1 || shards > 1);
        let merged = builder.finish();
        assert_eq!(merged.len(), 2548);
        assert_eq!(merged.iter_mosaics(), whole.iter_mosaics());
        for side in [HorizontalSide::Top, HorizontalSide::Bottom] {
            let of_whole = whole.iter_by_horizontal_edge(side);
            let of_merged = merged.iter_by_horizontal_edge(side);
            assert_eq!(of_whole.len(), of_merged.len());
            for ((key, found), (other_key, other_found)) in of_whole.into_iter().zip(of_merged) {
                assert_eq!(key, other_key);
                assert_eq!(found.len(), other_found.len());
                for ((slot, view), (other_slot, other)) in found.into_iter().zip(other_found) {
                    assert_eq!((slot, view.rotation), (other_slot, other.rotation));
                    assert_eq!(horizontal_edge(&view, side), key);
                }
            }
        }
    }
}

#[test]
fn shards_merged_in_another_order_give_the_same_mosaics() {
    let (corners, edges, _) = build_1x1_sets();
    let whole = build_rectangular_corners::<1, 2, _, _, _>(
        InMemoryRectangularMosaicSetBuilder::<2, 1, _>::new(),
        &corners,
        &edges,
    );
    let a_memo = Filtering(SquareRotated(Rotation::Identity));
    let b_filter = Unmemoized(SquareRotated(Rotation::QuarterTurnRight));
    let mut builder = InMemoryRectangularMosaicSetBuilder::<2, 1, _>::new();
    let mut partials = Vec::new();
    for j in 0..corners.bucket_count() {
        let mut shard = builder.new_shard();
        fill_rectangle_shard::<1, 2, _, _, _, _, _>(
            &mut shard, &corners, j, &a_memo, &edges, &b_filter,
        );
        partials.push(shard.finish());
    }
    assert!(partials.len() > 1);
    for partial in partials.into_iter().rev() {
        builder.merge(partial);
    }
    let merged = builder.finish();
    assert_eq!(merged.len(), whole.len());
    assert_ne!(merged.iter_mosaics(), whole.iter_mosaics());
    let mut of_whole = whole.iter_mosaics().clone();
    let mut of_merged = merged.iter_mosaics().clone();
    of_whole.sort();
    of_merged.sort();
    assert_eq!(of_whole, of_merged);
    assert!(merged.is_distinct());
}

#[test]
fn the_second_doubling_gives_the_known_numbers_of_squares() {
    let (corners, edges, centers) = build_1x1_sets();
    let rectangular_corners = build_rectangular_corners::<1, 2, _, _, _>(
        InMemoryRectangularMosaicSetBuilder::<2, 1, _>::new(),
        &corners,
        &edges,
    );
    let rectangular_edges = build_rectangular_edges::<1, 2, _, _, _>(
        InMemoryRectangularMosaicSetBuilder::<2, 1, _>::new(),
        &edges,
        &centers,
    );
    let square_corners = build_square_corners::<1, 2, _, _, _>(
        InMemorySquareMosaicSetBuilder::new(),
        &rectangular_corners,
        &rectangular_edges,
    );
    assert_eq!(square_corners.len(), 1312);
    assert_eq!(
        square_corners.iter_mosaics()[0].tiles,
        [
            [cell(15, Rotation::QuarterTurnLeft), cell(31, Rotation::QuarterTurnLeft)],
            [cell(208, Rotation::Identity), cell(50, Rotation::QuarterTurnLeft)]
        ]
    );
    let square_edges =
        build_square_edges::<1, 2, _, _>(CountingSetBuilder::new(), &rectangular_edges);
    assert_eq!(square_edges, 73003);
    let any = build_squares::<1, 2, _, _, _, _, _>(
        CountingSetBuilder::new(),
        &rectangular_corners,
        RectangleRotated(RectangularRotation::Identity),
        &rectangular_edges,
        RectangleRotated(RectangularRotation::Identity),
    );
    assert_eq!(any, 1312);
    for mosaic in square_corners.iter_mosaics() {
        assert!(uses_tiles_once(mosaic));
        let upper: ArrayMosaic<2, 1> = ArrayMosaic {
            tiles: [mosaic.tiles[0]],
        };
        let lower: ArrayMosaic<2, 1> = ArrayMosaic {
            tiles: [mosaic.tiles[1]],
        };
        assert_eq!(
            horizontal_edge(&upper, HorizontalSide::Bottom),
            horizontal_edge(&lower, HorizontalSide::Top).reversed()
        );
        assert_eq!(to_array_mosaic(mosaic), *mosaic);
    }
}

#[test]
fn a_memo_is_handed_to_the_second_filter() {
    let (_, _, centers) = build_1x1_sets();
    let with_memo = build_rectangles_memo::<1, 2, _, _, _, _, _>(
        CountingSetBuilder::new(),
        &centers,
        LeastTile,
        &centers,
        LeastTileUprightOrLeft,
    );
    assert_eq!(with_memo, 17640);
    let all = build_rectangles::<1, 2, _, _, _, _, _>(
        CountingSetBuilder::new(),
        &centers,
        Any,
        &centers,
        Any,
    );
    assert_eq!(all, 2 * 17640);
}

#[test]
fn counters_stop_at_the_greatest_number() {
    assert_eq!(count_one_more(0), 1);
    assert_eq!(count_one_more(usize::MAX - 1), usize::MAX);
    assert_eq!(count_one_more(usize::MAX), usize::MAX);
    assert_eq!(count_sum(3, 4), 7);
    assert_eq!(count_sum(usize::MAX - 4, 4), usize::MAX);
    assert_eq!(count_sum(usize::MAX - 3, 4), usize::MAX);
    assert_eq!(count_sum(usize::MAX, usize::MAX), usize::MAX);
}

#[test]
fn counting_builders_add_up_their_shards() {
    let mut builder: CountingSetBuilder<u8> = CountingSetBuilder::new();
    let mut first = builder.new_shard();
    let mut second = builder.new_shard();
    let third = builder.new_shard();
    first.insert(5);
    first.insert(6);
    second.insert(7);
    builder.merge(second.finish());
    builder.merge(third.finish());
    builder.merge(first.finish());
    assert_eq!(builder.finish(), 3);
    let empty: CountingSetBuilder<u8> = CountingSetBuilder::new();
    assert_eq!(empty.finish(), 0);
}

#[test]
fn sampling_builders_keep_the_first_item_of_the_first_shard_that_has_one() {
    let mut builder: CountingSamplingSetBuilder<u8> = CountingSamplingSetBuilder::new();
    let empty = builder.new_shard();
    let mut first = builder.new_shard();
    let mut second = builder.new_shard();
    first.insert(5);
    first.insert(6);
    second.insert(7);
    assert_eq!(builder.new_shard().finish(), (0, None));
    builder.merge(empty.finish());
    builder.merge(second.finish());
    builder.merge(first.finish());
    assert_eq!(builder.finish(), (3, Some(7)));
    let none: CountingSamplingSetBuilder<u8> = CountingSamplingSetBuilder::new();
    assert_eq!(none.finish(), (0, None));
}

#[test]
fn in_memory_builders_keep_the_items_in_the_order_of_merging() {
    let mut builder = InMemorySquareMosaicSetBuilder::new();
    let mut first = builder.new_shard();
    let mut second = builder.new_shard();
    first.insert(grid([[0, 1], [16, 17]]));
    second.insert(grid([[17, 18], [33, 34]]));
    second.insert(grid([[1, 2], [17, 18]]));
    builder.merge(second.finish());
    builder.merge(first.finish());
    let set = builder.finish();
    assert_eq!(
        set.iter_mosaics(),
        &vec![
            grid([[17, 18], [33, 34]]),
            grid([[1, 2], [17, 18]]),
            grid([[0, 1], [16, 17]])
        ]
    );
    let found = set.query(Side::Right, &ArrayEdge::from_byte_string(b"fi"));
    assert_eq!(found.len(), 1);
    assert_eq!(found[0].0, 2);
    assert_eq!(found[0].1.rotation, Rotation::Identity);
}

#[test]
fn built_rectangular_centers_show_each_grid_once() {
    let (_, _, centers) = build_1x1_sets();
    let mut few = SquareMosaicSet::new();
    for mosaic in centers.iter_mosaics().iter().take(60) {
        few.insert(*mosaic);
    }
    assert!(few.is_distinct());
    let built = build_rectangular_centers::<1, 2, _, _>(
        InMemoryRectangularMosaicSetBuilder::<2, 1, _>::new(),
        &few,
    );
    assert!(built.len() > 0);
    assert!(built.is_distinct());
    built.assert_distinct();
    let turned: Vec<[[RotatedTile; 2]; 1]> = built
        .iter_mosaics()
        .iter()
        .map(|mosaic| {
            [[
                cell(
                    mosaic.get(1, 0).tile.to_primitive(),
                    mosaic.get(1, 0).rotation.plus(Rotation::HalfTurn),
                ),
                cell(
                    mosaic.get(0, 0).tile.to_primitive(),
                    mosaic.get(0, 0).rotation.plus(Rotation::HalfTurn),
                ),
            ]]
        })
        .collect();
    for mosaic in built.iter_mosaics() {
        assert!(!turned.contains(&mosaic.tiles));
    }
    let all = build_rectangles::<1, 2, _, _, _, _, _>(
        CountingSetBuilder::new(),
        &few,
        Any,
        &few,
        Any,
    );
    assert_eq!(all, 2 * built.len());
}
