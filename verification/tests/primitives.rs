use eternity_ii::{Color, ExteriorMask, RotatedTile, Rotation, Side, Tile};

#[test]
fn iter_and_to_char() {
    assert_eq!(
        String::from_iter(Color::iter().into_iter().map(|color| color.to_char())),
        "abcdefghijklmnopqrstuvw",
    );
}

#[test]
fn rotate_side() {
    for (t, pairs) in [
        (
            Rotation::Identity,
            [
                (Side::Right, Side::Right),
                (Side::Top, Side::Top),
                (Side::Left, Side::Left),
                (Side::Bottom, Side::Bottom),
            ],
        ),
        (
            Rotation::QuarterTurnLeft,
            [
                (Side::Right, Side::Top),
                (Side::Top, Side::Left),
                (Side::Left, Side::Bottom),
                (Side::Bottom, Side::Right),
            ],
        ),
        (
            Rotation::HalfTurn,
            [
                (Side::Right, Side::Left),
                (Side::Top, Side::Bottom),
                (Side::Left, Side::Right),
                (Side::Bottom, Side::Top),
            ],
        ),
        (
            Rotation::QuarterTurnRight,
            [
                (Side::Right, Side::Bottom),
                (Side::Top, Side::Right),
                (Side::Left, Side::Top),
                (Side::Bottom, Side::Left),
            ],
        ),
    ] {
        for (a, b) in pairs {
            assert_eq!(a.transform(t), b);
            assert_eq!(b.reverse_transform(t), a);
        }
    }
}

#[test]
fn rotated_tile_colors() {
    let tile = Tile::from_primitive(0);
    for (rotation, colors) in [
        (Rotation::Identity, "jaar"),
        (Rotation::QuarterTurnLeft, "rjaa"),
        (Rotation::HalfTurn, "arja"),
        (Rotation::QuarterTurnRight, "aarj"),
    ] {
        let rotated_tile = RotatedTile { tile, rotation };
        for (expected, actual) in colors
            .chars()
            .zip(Side::iter().into_iter().map(|side| rotated_tile.color(side)))
        {
            assert_eq!(Color::from_char(expected), Some(actual));
        }
    }
}

#[test]
fn edge_colors() {
    let t0 = Tile::from_primitive(0);
    assert_eq!(Color::from_char('a'), Some(t0.color(Side::Top)));
    assert_eq!(Color::from_char('j'), Some(t0.color(Side::Right)));
    assert_eq!(Color::from_char('r'), Some(t0.color(Side::Bottom)));
    assert_eq!(Color::from_char('a'), Some(t0.color(Side::Left)));

    let t128 = Tile::from_primitive(128);
    assert_eq!(Color::from_char('b'), Some(t128.color(Side::Top)));
    assert_eq!(Color::from_char('h'), Some(t128.color(Side::Right)));
    assert_eq!(Color::from_char('f'), Some(t128.color(Side::Bottom)));
    assert_eq!(Color::from_char('a'), Some(t128.color(Side::Left)));
}

#[test]
fn side_positions_and_rotation_from_right() {
    assert_eq!(
        Side::iter(),
        vec![Side::Right, Side::Top, Side::Left, Side::Bottom]
    );
    for (position, side) in Side::iter().into_iter().enumerate() {
        assert_eq!(side.to_primitive() as usize, position);
        assert_eq!(Side::new_masked(position as u8 + 4), side);
        assert_eq!(Side::Right.transform(side.rotation_from_right()), side);
    }
    assert_eq!(Side::Bottom.rotation_from_right(), Rotation::QuarterTurnRight);
}

#[test]
fn rotations_add_up_modulo_four() {
    assert_eq!(
        Rotation::iter(),
        vec![
            Rotation::Identity,
            Rotation::QuarterTurnLeft,
            Rotation::HalfTurn,
            Rotation::QuarterTurnRight
        ]
    );
    for a in Rotation::iter() {
        for b in Rotation::iter() {
            let expected = Rotation::new_masked(a.to_primitive() + b.to_primitive());
            assert_eq!(a + b, expected);
            assert_eq!(a.plus(b), expected);
            let mut c = a;
            c += b;
            assert_eq!(c, expected);
        }
    }
    assert_eq!(
        Rotation::QuarterTurnRight + Rotation::HalfTurn,
        Rotation::QuarterTurnLeft
    );
}

#[test]
fn color_letters_round_trip() {
    assert_eq!(Color::iter().len(), 23);
    for (position, color) in Color::iter().into_iter().enumerate() {
        assert_eq!(color.to_primitive() as usize, position);
        assert_eq!(Color::new(position as u8), Some(color));
        assert_eq!(Color::from_byte_char(color.to_byte_char()), Some(color));
        assert_eq!(Color::from_char(color.to_char()), Some(color));
        assert_eq!(color.is_border(), position == 0);
        assert_eq!(color.is_valid_non_border_color(), position != 0);
    }
    assert_eq!(Color::EXTERIOR, Color::A);
    assert_eq!(Color::BORDER_COLOR_MIN, Color::B);
    assert_eq!(Color::BORDER_COLOR_MAX, Color::F);
    assert_eq!(Color::INTERIOR_COLOR_MIN, Color::G);
    assert_eq!(Color::INTERIOR_COLOR_MAX, Color::W);
    assert_eq!(Color::W.to_byte_char(), b'w');
    assert_eq!(Color::J.to_char(), 'j');
}

#[test]
fn letters_outside_the_alphabet_are_no_colors() {
    assert_eq!(Color::new(23), None);
    assert_eq!(Color::new(255), None);
    assert_eq!(Color::from_byte_char(b'x'), None);
    assert_eq!(Color::from_byte_char(b'`'), None);
    assert_eq!(Color::from_byte_char(b'A'), None);
    assert_eq!(Color::from_char('x'), None);
    assert_eq!(Color::from_char('\u{161}'), None);
    assert_eq!(Color::from_char('\u{10061}'), None);
}

#[test]
fn tiles_are_numbered_in_catalog_order() {
    let tiles = Tile::values();
    assert_eq!(tiles.len(), 256);
    for (number, tile) in tiles.into_iter().enumerate() {
        assert_eq!(tile.to_primitive() as usize, number);
        assert_eq!(Tile::from_primitive(number as u8), tile);
    }
    assert_eq!(Tile::zero(), Tile::from_primitive(0));
    let last = Tile::from_primitive(255);
    assert_eq!(last.color(Side::Right), Color::A);
    assert_eq!(last.color(Side::Top), Color::J);
    assert_eq!(last.color(Side::Left), Color::R);
    assert_eq!(last.color(Side::Bottom), Color::A);
}

#[test]
fn exterior_mask_names_the_exterior_sides() {
    let corner = RotatedTile {
        tile: Tile::from_primitive(0),
        rotation: Rotation::Identity,
    };
    assert_eq!(
        corner.exterior_mask(),
        ExteriorMask::zero().with_top(true).with_left(true)
    );
    let turned = corner + Rotation::QuarterTurnLeft;
    assert_eq!(turned.rotation, Rotation::QuarterTurnLeft);
    assert_eq!(turned.tile, corner.tile);
    assert_eq!(
        turned.exterior_mask(),
        ExteriorMask::zero().with_left(true).with_bottom(true)
    );
    let mut again = turned;
    again += Rotation::HalfTurn;
    assert_eq!(
        again.exterior_mask(),
        ExteriorMask::zero().with_right(true).with_top(true)
    );
    assert_eq!(
        ExteriorMask::zero().with_right(true).with_right(false),
        ExteriorMask::zero()
    );
}

#[test]
fn rotated_tiles_are_ranked_by_tile_then_rotation() {
    assert_eq!(RotatedTile::zero().rank(), 0);
    assert_eq!(RotatedTile::maximum().rank(), 1023);
    let tile = RotatedTile {
        tile: Tile::from_primitive(7),
        rotation: Rotation::HalfTurn,
    };
    assert_eq!(tile.rank(), 30);
    assert!(RotatedTile::zero() < tile);
    assert!(tile < RotatedTile::maximum());
}

#[test]
fn turning_a_tile_carries_its_colors_along() {
    for tile in [0u8, 1, 76, 128, 255] {
        for rotation in Rotation::iter() {
            for turn in Rotation::iter() {
                for side in Side::iter() {
                    let rotated = RotatedTile {
                        tile: Tile::from_primitive(tile),
                        rotation,
                    };
                    assert_eq!(
                        rotated.plus(turn).color(side.transform(turn)),
                        rotated.color(side)
                    );
                }
            }
        }
    }
}
