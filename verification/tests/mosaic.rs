use eternity_ii::edge::Comparison;
use eternity_ii::mosaic::{
    edge, horizontal_edge, tiles_compare, tiles_equal, vertical_edge, ArrayMosaic,
    PackedArrayMosaic, PackedQuadRotatedTile, RectangularMosaic, RectangularMosaicExt,
    RotatedRectangularMosaic, RotatedSquareMosaic, SquareMosaicExt,
};
use eternity_ii::rectangular::{HorizontalSide, RectangularRotation, VerticalSide};
use eternity_ii::{RotatedTile, Rotation, Side, Tile};

fn unrotated<const W: usize, const H: usize>(ids: [[u8; W]; H]) -> ArrayMosaic<W, H> {
    ArrayMosaic {
        tiles: ids.map(|row| {
            row.map(|id| RotatedTile {
                tile: Tile::from_primitive(id),
                rotation: Rotation::Identity,
            })
        }),
    }
}

fn right<const W: usize, const H: usize>(mosaic: impl RectangularMosaic<W, H>) -> String {
    mosaic.vertical_edge(VerticalSide::Right).to_string()
}

fn top<const W: usize, const H: usize>(mosaic: impl RectangularMosaic<W, H>) -> String {
    mosaic.horizontal_edge(HorizontalSide::Top).to_string()
}

fn left<const W: usize, const H: usize>(mosaic: impl RectangularMosaic<W, H>) -> String {
    mosaic.vertical_edge(VerticalSide::Left).to_string()
}

fn bottom<const W: usize, const H: usize>(mosaic: impl RectangularMosaic<W, H>) -> String {
    mosaic.horizontal_edge(HorizontalSide::Bottom).to_string()
}

#[test]
fn to_array_mosaic() {
    let mosaic = unrotated([[0, 1, 2], [10, 11, 12]]);
    assert_eq!(mosaic.to_array_mosaic(), mosaic);
}

#[test]
fn rotated_square_mosaic() {
    let tile_a = Tile::from_primitive(0);
    let tile_b = Tile::from_primitive(1);
    let tile_c = Tile::from_primitive(16);
    let tile_d = Tile::from_primitive(17);
    let mosaic = ArrayMosaic {
        tiles: [
            [
                RotatedTile {
                    tile: tile_a,
                    rotation: Rotation::Identity,
                },
                RotatedTile {
                    tile: tile_b,
                    rotation: Rotation::Identity,
                },
            ],
            [
                RotatedTile {
                    tile: tile_c,
                    rotation: Rotation::Identity,
                },
                RotatedTile {
                    tile: tile_d,
                    rotation: Rotation::Identity,
                },
            ],
        ],
    };

    let rotated = RotatedSquareMosaic {
        mosaic: &mosaic,
        rotation: Rotation::Identity,
    };
    assert_eq!(rotated.get(0, 0).tile, tile_a);
    assert_eq!(rotated.get(1, 0).tile, tile_b);
    assert_eq!(rotated.get(0, 1).tile, tile_c);
    assert_eq!(rotated.get(1, 1).tile, tile_d);
    assert_eq!(rotated.get(0, 0).rotation, Rotation::Identity);
    assert_eq!(rotated.get(1, 0).rotation, Rotation::Identity);
    assert_eq!(rotated.get(0, 1).rotation, Rotation::Identity);
    assert_eq!(rotated.get(1, 1).rotation, Rotation::Identity);
    assert_eq!(rotated.edge(Side::Right).to_string(), "fi");
    assert_eq!(rotated.edge(Side::Top).to_string(), "aa");
    assert_eq!(rotated.edge(Side::Left).to_string(), "aa");
    assert_eq!(rotated.edge(Side::Bottom).to_string(), "or");

    let rotated = RotatedSquareMosaic {
        mosaic: &mosaic,
        rotation: Rotation::QuarterTurnLeft,
    };
    assert_eq!(rotated.get(0, 0).tile, tile_b);
    assert_eq!(rotated.get(1, 0).tile, tile_d);
    assert_eq!(rotated.get(0, 1).tile, tile_a);
    assert_eq!(rotated.get(1, 1).tile, tile_c);
    assert_eq!(rotated.get(0, 0).rotation, Rotation::QuarterTurnLeft);
    assert_eq!(rotated.get(1, 0).rotation, Rotation::QuarterTurnLeft);
    assert_eq!(rotated.get(0, 1).rotation, Rotation::QuarterTurnLeft);
    assert_eq!(rotated.get(1, 1).rotation, Rotation::QuarterTurnLeft);
    assert_eq!(rotated.edge(Side::Right).to_string(), "or");
    assert_eq!(rotated.edge(Side::Top).to_string(), "fi");
    assert_eq!(rotated.edge(Side::Left).to_string(), "aa");
    assert_eq!(rotated.edge(Side::Bottom).to_string(), "aa");

    let rotated = RotatedSquareMosaic {
        mosaic: &mosaic,
        rotation: Rotation::HalfTurn,
    };
    assert_eq!(rotated.get(0, 0).tile, tile_d);
    assert_eq!(rotated.get(1, 0).tile, tile_c);
    assert_eq!(rotated.get(0, 1).tile, tile_b);
    assert_eq!(rotated.get(1, 1).tile, tile_a);
    assert_eq!(rotated.get(0, 0).rotation, Rotation::HalfTurn);
    assert_eq!(rotated.get(1, 0).rotation, Rotation::HalfTurn);
    assert_eq!(rotated.get(0, 1).rotation, Rotation::HalfTurn);
    assert_eq!(rotated.get(1, 1).rotation, Rotation::HalfTurn);
    assert_eq!(rotated.edge(Side::Right).to_string(), "aa");
    assert_eq!(rotated.edge(Side::Top).to_string(), "or");
    assert_eq!(rotated.edge(Side::Left).to_string(), "fi");
    assert_eq!(rotated.edge(Side::Bottom).to_string(), "aa");

    let rotated = RotatedSquareMosaic {
        mosaic: &mosaic,
        rotation: Rotation::QuarterTurnRight,
    };
    assert_eq!(rotated.get(0, 0).tile, tile_c);
    assert_eq!(rotated.get(1, 0).tile, tile_a);
    assert_eq!(rotated.get(0, 1).tile, tile_d);
    assert_eq!(rotated.get(1, 1).tile, tile_b);
    assert_eq!(rotated.get(0, 0).rotation, Rotation::QuarterTurnRight);
    assert_eq!(rotated.get(1, 0).rotation, Rotation::QuarterTurnRight);
    assert_eq!(rotated.get(0, 1).rotation, Rotation::QuarterTurnRight);
    assert_eq!(rotated.get(1, 1).rotation, Rotation::QuarterTurnRight);
    assert_eq!(rotated.edge(Side::Right).to_string(), "aa");
    assert_eq!(rotated.edge(Side::Top).to_string(), "aa");
    assert_eq!(rotated.edge(Side::Left).to_string(), "or");
    assert_eq!(rotated.edge(Side::Bottom).to_string(), "fi");
}

#[test]
fn rotated_rectangular_mosaic() {
    let tile_a = Tile::from_primitive(0);
    let tile_b = Tile::from_primitive(1);
    let tile_c = Tile::from_primitive(2);
    let tile_d = Tile::from_primitive(3);
    let tile_e = Tile::from_primitive(16);
    let tile_f = Tile::from_primitive(17);
    let tile_g = Tile::from_primitive(18);
    let tile_h = Tile::from_primitive(19);
    let tile_i = Tile::from_primitive(32);
    let tile_j = Tile::from_primitive(33);
    let tile_k = Tile::from_primitive(34);
    let tile_l = Tile::from_primitive(35);
    let mosaic = ArrayMosaic::<4, 3> {
        tiles: [
            [tile_a, tile_b, tile_c, tile_d],
            [tile_e, tile_f, tile_g, tile_h],
            [tile_i, tile_j, tile_k, tile_l],
        ]
        .into_iter()
        .map(|row| {
            row.into_iter()
                .map(|tile| RotatedTile {
                    tile,
                    rotation: Rotation::Identity,
                })
                .collect::<Vec<_>>()
                .try_into()
                .unwrap()
        })
        .collect::<Vec<_>>()
        .try_into()
        .unwrap(),
    };

    let rotated = RotatedRectangularMosaic {
        mosaic: &mosaic,
        rotation: RectangularRotation::Identity,
    };
    assert_eq!(rotated.get(0, 0).tile, tile_a);
    assert_eq!(rotated.get(1, 0).tile, tile_b);
    assert_eq!(rotated.get(2, 0).tile, tile_c);
    assert_eq!(rotated.get(3, 0).tile, tile_d);
    assert_eq!(rotated.get(0, 1).tile, tile_e);
    assert_eq!(rotated.get(1, 1).tile, tile_f);
    assert_eq!(rotated.get(2, 1).tile, tile_g);
    assert_eq!(rotated.get(3, 1).tile, tile_h);
    assert_eq!(rotated.get(0, 2).tile, tile_i);
    assert_eq!(rotated.get(1, 2).tile, tile_j);
    assert_eq!(rotated.get(2, 2).tile, tile_k);
    assert_eq!(rotated.get(3, 2).tile, tile_l);
    assert_eq!(rotated.get(0, 0).rotation, Rotation::Identity);
    assert_eq!(rotated.get(1, 0).rotation, Rotation::Identity);
    assert_eq!(rotated.get(2, 0).rotation, Rotation::Identity);
    assert_eq!(rotated.get(3, 0).rotation, Rotation::Identity);
    assert_eq!(rotated.get(0, 1).rotation, Rotation::Identity);
    assert_eq!(rotated.get(1, 1).rotation, Rotation::Identity);
    assert_eq!(rotated.get(2, 1).rotation, Rotation::Identity);
    assert_eq!(rotated.get(3, 1).rotation, Rotation::Identity);
    assert_eq!(rotated.get(0, 2).rotation, Rotation::Identity);
    assert_eq!(rotated.get(1, 2).rotation, Rotation::Identity);
    assert_eq!(rotated.get(2, 2).rotation, Rotation::Identity);
    assert_eq!(rotated.get(3, 2).rotation, Rotation::Identity);
    assert_eq!(right(rotated), "ftd");
    assert_eq!(top(rotated), "aaaa");
    assert_eq!(left(rotated), "aaa");
    assert_eq!(bottom(rotated), "mdtf");

    let rotated = RotatedRectangularMosaic {
        mosaic: &mosaic,
        rotation: RectangularRotation::HalfTurn,
    };
    assert_eq!(rotated.get(0, 0).tile, tile_l);
    assert_eq!(rotated.get(1, 0).tile, tile_k);
    assert_eq!(rotated.get(2, 0).tile, tile_j);
    assert_eq!(rotated.get(3, 0).tile, tile_i);
    assert_eq!(rotated.get(0, 1).tile, tile_h);
    assert_eq!(rotated.get(1, 1).tile, tile_g);
    assert_eq!(rotated.get(2, 1).tile, tile_f);
    assert_eq!(rotated.get(3, 1).tile, tile_e);
    assert_eq!(rotated.get(0, 2).tile, tile_d);
    assert_eq!(rotated.get(1, 2).tile, tile_c);
    assert_eq!(rotated.get(2, 2).tile, tile_b);
    assert_eq!(rotated.get(3, 2).tile, tile_a);
    assert_eq!(rotated.get(0, 0).rotation, Rotation::HalfTurn);
    assert_eq!(rotated.get(1, 0).rotation, Rotation::HalfTurn);
    assert_eq!(rotated.get(2, 0).rotation, Rotation::HalfTurn);
    assert_eq!(rotated.get(3, 0).rotation, Rotation::HalfTurn);
    assert_eq!(rotated.get(0, 1).rotation, Rotation::HalfTurn);
    assert_eq!(rotated.get(1, 1).rotation, Rotation::HalfTurn);
    assert_eq!(rotated.get(2, 1).rotation, Rotation::HalfTurn);
    assert_eq!(rotated.get(3, 1).rotation, Rotation::HalfTurn);
    assert_eq!(rotated.get(0, 2).rotation, Rotation::HalfTurn);
    assert_eq!(rotated.get(1, 2).rotation, Rotation::HalfTurn);
    assert_eq!(rotated.get(2, 2).rotation, Rotation::HalfTurn);
    assert_eq!(rotated.get(3, 2).rotation, Rotation::HalfTurn);
    assert_eq!(right(rotated), "aaa");
    assert_eq!(top(rotated), "mdtf");
    assert_eq!(left(rotated), "ftd");
    assert_eq!(bottom(rotated), "aaaa");
}

#[test]
fn views_report_their_size_and_add_up_rotations() {
    let mosaic = unrotated([[0, 1, 2], [10, 11, 12]]);
    assert_eq!(mosaic.width(), 3);
    assert_eq!(mosaic.height(), 2);
    let view = mosaic.with_rectangular_rotation(RectangularRotation::HalfTurn);
    assert_eq!(view.width(), 3);
    assert_eq!(view.height(), 2);
    assert_eq!(view.rotation, RectangularRotation::HalfTurn);
    let back = view.with_rectangular_rotation(RectangularRotation::HalfTurn);
    assert_eq!(back.rotation, RectangularRotation::Identity);
    assert_eq!(eternity_ii::mosaic::to_array_mosaic(&back), mosaic);
    let added = (&mosaic + RectangularRotation::HalfTurn) + RectangularRotation::HalfTurn;
    assert_eq!(added.rotation, RectangularRotation::Identity);
    let from = RotatedRectangularMosaic::from(&mosaic);
    assert_eq!(from.rotation, RectangularRotation::Identity);

    let square = unrotated([[0, 1], [16, 17]]);
    let turned = square
        .with_square_rotation(Rotation::QuarterTurnLeft)
        .with_square_rotation(Rotation::HalfTurn);
    assert_eq!(turned.rotation, Rotation::QuarterTurnRight);
    assert_eq!(turned.width(), 2);
    assert_eq!(turned.height(), 2);
    let mut other = &square + Rotation::QuarterTurnLeft;
    other += Rotation::HalfTurn;
    assert!(tiles_equal(&turned, &other));
    assert!(!tiles_equal(&turned, &square));
    let half = RotatedSquareMosaic::from(&square)
        .with_rectangular_rotation(RectangularRotation::HalfTurn);
    assert_eq!(half.rotation, Rotation::HalfTurn);
    assert_eq!(half.get(0, 0).tile, Tile::from_primitive(17));
}

#[test]
fn turning_a_view_carries_its_edges_along() {
    let mosaic = unrotated([[0, 1, 2], [16, 17, 18], [32, 33, 34]]);
    for rotation in Rotation::iter() {
        for turn in Rotation::iter() {
            for side in Side::iter() {
                let view = mosaic.with_square_rotation(rotation);
                let turned = view.with_square_rotation(turn);
                assert_eq!(edge(&turned, side.transform(turn)), edge(&view, side));
            }
        }
    }
}

#[test]
fn a_view_of_a_view_is_the_view_after_both_rotations() {
    let mosaic = unrotated([[0, 1], [16, 17]]);
    for first in Rotation::iter() {
        for second in Rotation::iter() {
            let view = mosaic.with_square_rotation(first);
            let nested = RotatedSquareMosaic {
                mosaic: &view,
                rotation: second,
            };
            let flat = mosaic.with_square_rotation(first + second);
            assert!(tiles_equal(&nested, &flat));
        }
    }
}

#[test]
fn packed_mosaics_hold_their_cells_in_blocks() {
    let tile = |id: u8| Tile::from_primitive(id);
    let quad = |ids: [u8; 4], rotations: [Rotation; 4]| PackedQuadRotatedTile {
        tiles: ids.map(tile),
        rotations,
    };
    let upright = [Rotation::Identity; 4];
    let mixed = [
        Rotation::Identity,
        Rotation::QuarterTurnLeft,
        Rotation::HalfTurn,
        Rotation::QuarterTurnRight,
    ];
    let packed: PackedArrayMosaic<3, 2, 2, 1> =
        PackedArrayMosaic::new([[quad([0, 1, 10, 11], mixed), quad([2, 99, 12, 98], upright)]])
            .unwrap();
    assert_eq!(packed.width(), 3);
    assert_eq!(packed.height(), 2);
    assert_eq!(packed.get(0, 0).tile, tile(0));
    assert_eq!(packed.get(1, 0).tile, tile(1));
    assert_eq!(packed.get(2, 0).tile, tile(2));
    assert_eq!(packed.get(0, 1).tile, tile(10));
    assert_eq!(packed.get(1, 1).tile, tile(11));
    assert_eq!(packed.get(2, 1).tile, tile(12));
    assert_eq!(packed.get(1, 0).rotation, Rotation::QuarterTurnLeft);
    assert_eq!(packed.get(0, 1).rotation, Rotation::HalfTurn);
    assert_eq!(packed.get(1, 1).rotation, Rotation::QuarterTurnRight);
    assert_eq!(packed.quads()[0][1].tiles[1], tile(99));
    let view = packed.with_rectangular_rotation(RectangularRotation::HalfTurn);
    assert_eq!(view.get(0, 0).tile, tile(12));
    let sum = &packed + RectangularRotation::HalfTurn;
    assert!(tiles_equal(&view, &sum));

    let too_small: Option<PackedArrayMosaic<3, 2, 1, 1>> =
        PackedArrayMosaic::new([[quad([0, 1, 10, 11], upright)]]);
    assert!(too_small.is_none());
    let square: PackedArrayMosaic<2, 2, 1, 1> =
        PackedArrayMosaic::new([[quad([0, 1, 16, 17], upright)]]).unwrap();
    let same = unrotated([[0, 1], [16, 17]]);
    assert!(tiles_equal(&square, &same));
    let turned = square.with_square_rotation(Rotation::QuarterTurnLeft);
    assert!(tiles_equal(
        &turned,
        &same.with_square_rotation(Rotation::QuarterTurnLeft)
    ));
    assert!(tiles_equal(&(&square + Rotation::HalfTurn), &(&same + Rotation::HalfTurn)));
}

#[test]
fn mosaics_are_ordered_by_their_first_difference() {
    let low = unrotated([[0, 1], [16, 17]]);
    let mid = unrotated([[0, 1], [16, 18]]);
    let high = unrotated([[0, 2], [3, 4]]);
    assert_eq!(tiles_compare(&low, &low), Comparison::Equal);
    assert_eq!(tiles_compare(&low, &mid), Comparison::Less);
    assert_eq!(tiles_compare(&mid, &low), Comparison::Greater);
    assert_eq!(tiles_compare(&mid, &high), Comparison::Less);
    assert_eq!(tiles_compare(&low, &high), Comparison::Less);
    let upright = low.with_square_rotation(Rotation::Identity);
    let turned = low.with_square_rotation(Rotation::HalfTurn);
    assert_eq!(tiles_compare(&upright, &low), Comparison::Equal);
    assert_eq!(tiles_compare(&upright, &turned), Comparison::Less);
    assert!(upright < turned);
    assert!(turned > upright);
    assert!(upright != turned);
    assert!(upright == low.with_square_rotation(Rotation::QuarterTurnLeft).with_square_rotation(Rotation::QuarterTurnRight));
    let rectangle = unrotated([[0, 1, 2]]);
    let same = rectangle.with_rectangular_rotation(RectangularRotation::Identity);
    let other = rectangle.with_rectangular_rotation(RectangularRotation::HalfTurn);
    assert!(same == same);
    assert!(same != other);
    assert!(same < other);
    for (a, b) in [(low, mid), (mid, high), (low, high)] {
        assert_eq!(tiles_compare(&a, &b) == Comparison::Less, a < b);
    }
}

#[test]
fn edges_are_the_same_by_method_and_by_function() {
    let mosaic = unrotated([[0, 1, 2], [16, 17, 18]]);
    for side in [VerticalSide::Right, VerticalSide::Left] {
        assert_eq!(mosaic.vertical_edge(side), vertical_edge(&mosaic, side));
    }
    for side in [HorizontalSide::Top, HorizontalSide::Bottom] {
        assert_eq!(mosaic.horizontal_edge(side), horizontal_edge(&mosaic, side));
    }
    let square = unrotated([[0, 1], [16, 17]]);
    for side in Side::iter() {
        assert_eq!(square.edge(side), edge(&square, side));
    }
    assert_eq!(vertical_edge(&mosaic, VerticalSide::Right).to_string(), "bv");
    assert_eq!(horizontal_edge(&mosaic, HorizontalSide::Bottom).to_string(), "sor");
}
