use eternity_ii::rectangular::{
    HorizontalSide, RectangularRotation, RectangularSide, SideExt, VerticalSide,
};
use eternity_ii::{Rotation, Side};

#[test]
fn rotation_from_right() {
    assert_eq!(
        VerticalSide::Right.rotation_from_right(),
        RectangularRotation::Identity,
    );
    assert_eq!(
        VerticalSide::Left.rotation_from_right(),
        RectangularRotation::HalfTurn,
    );
}

#[test]
fn rotation_from_top() {
    assert_eq!(
        HorizontalSide::Top.rotation_from_top(),
        RectangularRotation::Identity,
    );
    assert_eq!(
        HorizontalSide::Bottom.rotation_from_top(),
        RectangularRotation::HalfTurn,
    );
}

#[test]
fn to_square() {
    assert_eq!(VerticalSide::Right.to_square(), Side::Right);
    assert_eq!(HorizontalSide::Top.to_square(), Side::Top);
    assert_eq!(VerticalSide::Left.to_square(), Side::Left);
    assert_eq!(HorizontalSide::Bottom.to_square(), Side::Bottom);
    assert_eq!(
        RectangularRotation::Identity.to_square(),
        Rotation::Identity,
    );
    assert_eq!(
        RectangularRotation::HalfTurn.to_square(),
        Rotation::HalfTurn,
    );
}

#[test]
fn add() {
    assert_eq!(
        VerticalSide::Right + RectangularRotation::Identity,
        VerticalSide::Right,
    );
    assert_eq!(
        VerticalSide::Right + RectangularRotation::HalfTurn,
        VerticalSide::Left,
    );
    assert_eq!(
        VerticalSide::Left + RectangularRotation::Identity,
        VerticalSide::Left,
    );
    assert_eq!(
        VerticalSide::Left + RectangularRotation::HalfTurn,
        VerticalSide::Right,
    );
    assert_eq!(
        HorizontalSide::Top + RectangularRotation::Identity,
        HorizontalSide::Top,
    );
    assert_eq!(
        HorizontalSide::Top + RectangularRotation::HalfTurn,
        HorizontalSide::Bottom,
    );
    assert_eq!(
        HorizontalSide::Bottom + RectangularRotation::Identity,
        HorizontalSide::Bottom,
    );
    assert_eq!(
        HorizontalSide::Bottom + RectangularRotation::HalfTurn,
        HorizontalSide::Top,
    );
}

#[test]
fn add_assign() {
    let mut side = VerticalSide::Right;
    side += RectangularRotation::Identity;
    assert_eq!(side, VerticalSide::Right);
    side += RectangularRotation::HalfTurn;
    assert_eq!(side, VerticalSide::Left);
    side += RectangularRotation::Identity;
    assert_eq!(side, VerticalSide::Left);
    side += RectangularRotation::HalfTurn;
    assert_eq!(side, VerticalSide::Right);

    let mut side = HorizontalSide::Top;
    side += RectangularRotation::Identity;
    assert_eq!(side, HorizontalSide::Top);
    side += RectangularRotation::HalfTurn;
    assert_eq!(side, HorizontalSide::Bottom);
    side += RectangularRotation::Identity;
    assert_eq!(side, HorizontalSide::Bottom);
    side += RectangularRotation::HalfTurn;
    assert_eq!(side, HorizontalSide::Top);

    let mut rotation = RectangularRotation::Identity;
    rotation += RectangularRotation::Identity;
    assert_eq!(rotation, RectangularRotation::Identity);
    rotation += RectangularRotation::HalfTurn;
    assert_eq!(rotation, RectangularRotation::HalfTurn);
    rotation += RectangularRotation::Identity;
    assert_eq!(rotation, RectangularRotation::HalfTurn);
    rotation += RectangularRotation::HalfTurn;
    assert_eq!(rotation, RectangularRotation::Identity);
}

#[test]
fn sides_of_a_square_sorted_by_axis() {
    assert_eq!(
        Side::Right.to_rectangular(),
        RectangularSide::Vertical(VerticalSide::Right)
    );
    assert_eq!(
        Side::Top.to_rectangular(),
        RectangularSide::Horizontal(HorizontalSide::Top)
    );
    assert_eq!(
        Side::Left.to_rectangular(),
        RectangularSide::Vertical(VerticalSide::Left)
    );
    assert_eq!(
        Side::Bottom.to_rectangular(),
        RectangularSide::Horizontal(HorizontalSide::Bottom)
    );
}

#[test]
fn rectangular_rotations_count_half_turns() {
    assert_eq!(
        RectangularRotation::iter(),
        vec![RectangularRotation::Identity, RectangularRotation::HalfTurn]
    );
    for (turns, rotation) in RectangularRotation::iter().into_iter().enumerate() {
        assert_eq!(rotation.to_primitive() as usize, turns);
        assert_eq!(RectangularRotation::new_masked(turns as u8 + 2), rotation);
        assert_eq!(
            rotation.plus(rotation),
            RectangularRotation::Identity
        );
    }
    assert_eq!(
        VerticalSide::Left.plus(RectangularRotation::HalfTurn),
        VerticalSide::Right
    );
    assert_eq!(
        HorizontalSide::Bottom.plus(RectangularRotation::HalfTurn),
        HorizontalSide::Top
    );
}
