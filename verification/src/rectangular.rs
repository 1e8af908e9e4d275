use crate::{Rotation, Side};
use vstd::prelude::*;

verus! {

/// A side of a rectangle, sorted by the axis it runs along.
#[derive(Clone, Copy, Debug, PartialEq, Eq, Hash, Structural)]
pub enum RectangularSide {
    Vertical(VerticalSide),
    Horizontal(HorizontalSide),
}

/// One of the two sides of a rectangle that run from top to bottom.
#[derive(Clone, Copy, Debug, PartialEq, Eq, Hash, Structural)]
pub enum VerticalSide {
    Right,
    Left,
}

/// One of the two sides of a rectangle that run from left to right.
#[derive(Clone, Copy, Debug, PartialEq, Eq, Hash, Structural)]
pub enum HorizontalSide {
    Top,
    Bottom,
}

/// A rotation that maps a rectangle onto itself: none, or a half turn.
#[derive(Clone, Copy, Debug, PartialEq, Eq, PartialOrd, Ord, Hash, Structural)]
pub enum RectangularRotation {
    Identity,
    HalfTurn,
}

impl VerticalSide {
    pub open spec fn spec_rotation_from_right(self) -> RectangularRotation {
        match self {
            VerticalSide::Right => RectangularRotation::Identity,
            VerticalSide::Left => RectangularRotation::HalfTurn,
        }
    }

    pub open spec fn spec_to_square(self) -> Side {
        match self {
            VerticalSide::Right => Side::Right,
            VerticalSide::Left => Side::Left,
        }
    }

    /// The side onto which `rhs` carries this side.
    pub open spec fn spec_plus(self, rhs: RectangularRotation) -> VerticalSide {
        match (self, rhs) {
            (VerticalSide::Right, RectangularRotation::Identity) => VerticalSide::Right,
            (VerticalSide::Right, RectangularRotation::HalfTurn) => VerticalSide::Left,
            (VerticalSide::Left, RectangularRotation::Identity) => VerticalSide::Left,
            (VerticalSide::Left, RectangularRotation::HalfTurn) => VerticalSide::Right,
        }
    }

    /// The side onto which `rhs` carries this side.
    #[verifier::when_used_as_spec(spec_plus)]
    pub fn plus(self, rhs: RectangularRotation) -> (sum: VerticalSide)
        ensures
            sum == self.spec_plus(rhs),
    {
        match (self, rhs) {
            (VerticalSide::Right, RectangularRotation::Identity) => VerticalSide::Right,
            (VerticalSide::Right, RectangularRotation::HalfTurn) => VerticalSide::Left,
            (VerticalSide::Left, RectangularRotation::Identity) => VerticalSide::Left,
            (VerticalSide::Left, RectangularRotation::HalfTurn) => VerticalSide::Right,
        }
    }

    /// The rotation that carries the right side onto this side.
    #[verifier::when_used_as_spec(spec_rotation_from_right)]
    pub fn rotation_from_right(self) -> (rotation: RectangularRotation)
        ensures
            rotation == self.spec_rotation_from_right(),
            VerticalSide::Right.plus(rotation) == self,
            rotation.spec_to_square() == self.spec_to_square().spec_rotation_from_right(),
    {
        match self {
            VerticalSide::Right => RectangularRotation::Identity,
            VerticalSide::Left => RectangularRotation::HalfTurn,
        }
    }

    #[verifier::when_used_as_spec(spec_to_square)]
    pub fn to_square(self) -> (side: Side)
        ensures
            side == self.spec_to_square(),
    {
        match self {
            VerticalSide::Right => Side::Right,
            VerticalSide::Left => Side::Left,
        }
    }
}

impl core::ops::Add<RectangularRotation> for VerticalSide {
    type Output = VerticalSide;

    fn add(self, rhs: RectangularRotation) -> (sum: VerticalSide) {
        self.plus(rhs)
    }
}

impl vstd::std_specs::ops::AddSpecImpl<RectangularRotation> for VerticalSide {
    open spec fn obeys_add_spec() -> bool {
        true
    }

    open spec fn add_req(self, rhs: RectangularRotation) -> bool {
        true
    }

    open spec fn add_spec(self, rhs: RectangularRotation) -> VerticalSide {
        self.plus(rhs)
    }
}

impl core::ops::AddAssign<RectangularRotation> for VerticalSide {
    fn add_assign(&mut self, rhs: RectangularRotation)
        ensures
            *final(self) == old(self).plus(rhs),
    {
        *self = self.plus(rhs);
    }
}

impl HorizontalSide {
    pub open spec fn spec_rotation_from_top(self) -> RectangularRotation {
        match self {
            HorizontalSide::Top => RectangularRotation::Identity,
            HorizontalSide::Bottom => RectangularRotation::HalfTurn,
        }
    }

    pub open spec fn spec_to_square(self) -> Side {
        match self {
            HorizontalSide::Top => Side::Top,
            HorizontalSide::Bottom => Side::Bottom,
        }
    }

    /// The side onto which `rhs` carries this side.
    pub open spec fn spec_plus(self, rhs: RectangularRotation) -> HorizontalSide {
        match (self, rhs) {
            (HorizontalSide::Top, RectangularRotation::Identity) => HorizontalSide::Top,
            (HorizontalSide::Top, RectangularRotation::HalfTurn) => HorizontalSide::Bottom,
            (HorizontalSide::Bottom, RectangularRotation::Identity) => HorizontalSide::Bottom,
            (HorizontalSide::Bottom, RectangularRotation::HalfTurn) => HorizontalSide::Top,
        }
    }

    /// The side onto which `rhs` carries this side.
    #[verifier::when_used_as_spec(spec_plus)]
    pub fn plus(self, rhs: RectangularRotation) -> (sum: HorizontalSide)
        ensures
            sum == self.spec_plus(rhs),
    {
        match (self, rhs) {
            (HorizontalSide::Top, RectangularRotation::Identity) => HorizontalSide::Top,
            (HorizontalSide::Top, RectangularRotation::HalfTurn) => HorizontalSide::Bottom,
            (HorizontalSide::Bottom, RectangularRotation::Identity) => HorizontalSide::Bottom,
            (HorizontalSide::Bottom, RectangularRotation::HalfTurn) => HorizontalSide::Top,
        }
    }

    /// The rotation that carries the top side onto this side.
    #[verifier::when_used_as_spec(spec_rotation_from_top)]
    pub fn rotation_from_top(self) -> (rotation: RectangularRotation)
        ensures
            rotation == self.spec_rotation_from_top(),
            HorizontalSide::Top.plus(rotation) == self,
    {
        match self {
            HorizontalSide::Top => RectangularRotation::Identity,
            HorizontalSide::Bottom => RectangularRotation::HalfTurn,
        }
    }

    #[verifier::when_used_as_spec(spec_to_square)]
    pub fn to_square(self) -> (side: Side)
        ensures
            side == self.spec_to_square(),
    {
        match self {
            HorizontalSide::Top => Side::Top,
            HorizontalSide::Bottom => Side::Bottom,
        }
    }
}

impl core::ops::Add<RectangularRotation> for HorizontalSide {
    type Output = HorizontalSide;

    fn add(self, rhs: RectangularRotation) -> (sum: HorizontalSide) {
        self.plus(rhs)
    }
}

impl vstd::std_specs::ops::AddSpecImpl<RectangularRotation> for HorizontalSide {
    open spec fn obeys_add_spec() -> bool {
        true
    }

    open spec fn add_req(self, rhs: RectangularRotation) -> bool {
        true
    }

    open spec fn add_spec(self, rhs: RectangularRotation) -> HorizontalSide {
        self.plus(rhs)
    }
}

impl core::ops::AddAssign<RectangularRotation> for HorizontalSide {
    fn add_assign(&mut self, rhs: RectangularRotation)
        ensures
            *final(self) == old(self).plus(rhs),
    {
        *self = self.plus(rhs);
    }
}

/// Sorting the sides of a square by the axis they run along.
pub trait SideExt {
    spec fn spec_to_rectangular(self) -> RectangularSide;

    fn to_rectangular(self) -> (side: RectangularSide)
        ensures
            side == self.spec_to_rectangular(),
    ;
}

impl SideExt for Side {
    open spec fn spec_to_rectangular(self) -> RectangularSide {
        match self {
            Side::Right => RectangularSide::Vertical(VerticalSide::Right),
            Side::Top => RectangularSide::Horizontal(HorizontalSide::Top),
            Side::Left => RectangularSide::Vertical(VerticalSide::Left),
            Side::Bottom => RectangularSide::Horizontal(HorizontalSide::Bottom),
        }
    }

    fn to_rectangular(self) -> (side: RectangularSide) {
        match self {
            Side::Right => RectangularSide::Vertical(VerticalSide::Right),
            Side::Top => RectangularSide::Horizontal(HorizontalSide::Top),
            Side::Left => RectangularSide::Vertical(VerticalSide::Left),
            Side::Bottom => RectangularSide::Horizontal(HorizontalSide::Bottom),
        }
    }
}

impl RectangularRotation {
    pub open spec fn spec_to_square(self) -> Rotation {
        match self {
            RectangularRotation::Identity => Rotation::Identity,
            RectangularRotation::HalfTurn => Rotation::HalfTurn,
        }
    }

    /// Composition of two rotations.
    pub open spec fn spec_plus(self, rhs: RectangularRotation) -> RectangularRotation {
        if self == rhs {
            RectangularRotation::Identity
        } else {
            RectangularRotation::HalfTurn
        }
    }

    /// Composition of two rotations.
    #[verifier::when_used_as_spec(spec_plus)]
    pub fn plus(self, rhs: RectangularRotation) -> (sum: RectangularRotation)
        ensures
            sum == self.spec_plus(rhs),
    {
        if self == rhs {
            RectangularRotation::Identity
        } else {
            RectangularRotation::HalfTurn
        }
    }

    /// The rotation by `n` half turns.
    pub open spec fn from_turns(n: int) -> RectangularRotation {
        if n % 2 == 0 {
            RectangularRotation::Identity
        } else {
            RectangularRotation::HalfTurn
        }
    }

    /// Number of half turns.
    pub open spec fn spec_to_primitive(self) -> u8 {
        match self {
            RectangularRotation::Identity => 0,
            RectangularRotation::HalfTurn => 1,
        }
    }

    #[verifier::when_used_as_spec(spec_to_primitive)]
    pub fn to_primitive(self) -> (value: u8)
        ensures
            value == self.spec_to_primitive(),
    {
        match self {
            RectangularRotation::Identity => 0,
            RectangularRotation::HalfTurn => 1,
        }
    }

    /// The rotation by `value` half turns.
    pub fn new_masked(value: u8) -> (rotation: RectangularRotation)
        ensures
            rotation == RectangularRotation::from_turns(value as int),
    {
        if value % 2 == 0 {
            RectangularRotation::Identity
        } else {
            RectangularRotation::HalfTurn
        }
    }

    /// The same rotation, as one of the four rotations of a square.
    #[verifier::when_used_as_spec(spec_to_square)]
    pub fn to_square(self) -> (rotation: Rotation)
        ensures
            rotation == self.spec_to_square(),
    {
        match self {
            RectangularRotation::Identity => Rotation::Identity,
            RectangularRotation::HalfTurn => Rotation::HalfTurn,
        }
    }

    /// The two rotations, the identity first.
    pub fn iter() -> (rotations: Vec<RectangularRotation>)
        ensures
            rotations@ == seq![RectangularRotation::Identity, RectangularRotation::HalfTurn],
    {
        vec![RectangularRotation::Identity, RectangularRotation::HalfTurn]
    }
}

impl core::ops::Add for RectangularRotation {
    type Output = RectangularRotation;

    fn add(self, rhs: RectangularRotation) -> (sum: RectangularRotation) {
        self.plus(rhs)
    }
}

impl vstd::std_specs::ops::AddSpecImpl for RectangularRotation {
    open spec fn obeys_add_spec() -> bool {
        true
    }

    open spec fn add_req(self, rhs: RectangularRotation) -> bool {
        true
    }

    open spec fn add_spec(self, rhs: RectangularRotation) -> RectangularRotation {
        self.plus(rhs)
    }
}

impl core::ops::AddAssign for RectangularRotation {
    fn add_assign(&mut self, rhs: RectangularRotation)
        ensures
            *final(self) == old(self).plus(rhs),
    {
        *self = self.plus(rhs);
    }
}

} // verus!
