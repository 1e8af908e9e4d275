//! Counting the ways in which the tiles of an edge-matching puzzle fit together.
//!
//! The puzzle has 256 square tiles with a color on each side. This crate
//! builds, for each size reached by doubling (1x1, 2x1, 2x2, 4x2, ...), the
//! mosaics of that size in which neighbouring tiles show the same color where
//! they touch and no tile lies twice, each once up to rotation. Mosaics are
//! kept in sets that find them by the colors along their sides; a larger
//! mosaic is made of two smaller ones that fit. What is built can be kept,
//! counted, or counted with one mosaic kept as a sample.

use vstd::prelude::*;

pub mod catalog;
pub mod edge;
pub mod mosaic;
pub mod rectangular;
pub mod report;
pub mod sat;
pub mod set;

verus! {

/// One of the four sides of a tile or of a mosaic, counted counter-clockwise
/// from the right.
#[derive(Clone, Copy, Debug, PartialEq, Eq, PartialOrd, Ord, Hash, Structural)]
pub enum Side {
    Right,
    Top,
    Left,
    Bottom,
}

/// A rotation by a multiple of a quarter turn, counted counter-clockwise.
#[derive(Clone, Copy, Debug, PartialEq, Eq, PartialOrd, Ord, Hash, Structural)]
pub enum Rotation {
    Identity,
    QuarterTurnLeft,
    HalfTurn,
    QuarterTurnRight,
}

impl Side {
    /// Position of the side in the order right, top, left, bottom.
    pub open spec fn spec_to_primitive(self) -> u8 {
        match self {
            Side::Right => 0,
            Side::Top => 1,
            Side::Left => 2,
            Side::Bottom => 3,
        }
    }

    /// The side at position `n` modulo 4.
    pub open spec fn from_index(n: int) -> Side {
        let m = n % 4;
        if m == 0 {
            Side::Right
        } else if m == 1 {
            Side::Top
        } else if m == 2 {
            Side::Left
        } else {
            Side::Bottom
        }
    }

    pub open spec fn spec_rotation_from_right(self) -> Rotation {
        Rotation::from_turns(self.spec_to_primitive() as int)
    }

    pub open spec fn spec_transform(self, rotation: Rotation) -> Side {
        Side::from_index(self.spec_to_primitive() + rotation.spec_to_primitive())
    }

    pub open spec fn spec_reverse_transform(self, rotation: Rotation) -> Side {
        Side::from_index(self.spec_to_primitive() - rotation.spec_to_primitive())
    }

    #[verifier::when_used_as_spec(spec_to_primitive)]
    pub fn to_primitive(self) -> (value: u8)
        ensures
            value == self.spec_to_primitive(),
    {
        match self {
            Side::Right => 0,
            Side::Top => 1,
            Side::Left => 2,
            Side::Bottom => 3,
        }
    }

    /// The side at position `value` modulo 4.
    pub fn new_masked(value: u8) -> (side: Side)
        ensures
            side == Side::from_index(value as int),
    {
        let m: u8 = value % 4;
        if m == 0 {
            Side::Right
        } else if m == 1 {
            Side::Top
        } else if m == 2 {
            Side::Left
        } else {
            Side::Bottom
        }
    }

    /// The four sides in the order right, top, left, bottom.
    pub fn iter() -> (sides: Vec<Side>)
        ensures
            sides@ == seq![Side::Right, Side::Top, Side::Left, Side::Bottom],
    {
        vec![Side::Right, Side::Top, Side::Left, Side::Bottom]
    }

    /// The rotation that carries the right side onto this side.
    #[verifier::when_used_as_spec(spec_rotation_from_right)]
    pub fn rotation_from_right(self) -> (rotation: Rotation)
        ensures
            rotation == self.spec_rotation_from_right(),
            Side::Right.spec_transform(rotation) == self,
    {
        Rotation::new_masked(self.to_primitive())
    }

    /// The side onto which `rotation` carries this side.
    #[verifier::when_used_as_spec(spec_transform)]
    pub fn transform(self, rotation: Rotation) -> (side: Side)
        ensures
            side == self.spec_transform(rotation),
            side.spec_reverse_transform(rotation) == self,
    {
        Side::new_masked(self.to_primitive() + rotation.to_primitive())
    }

    /// The side that `rotation` carries onto this side.
    #[verifier::when_used_as_spec(spec_reverse_transform)]
    pub fn reverse_transform(self, rotation: Rotation) -> (side: Side)
        ensures
            side == self.spec_reverse_transform(rotation),
            side.spec_transform(rotation) == self,
    {
        Side::new_masked(self.to_primitive() + 4 - rotation.to_primitive())
    }
}

impl Rotation {
    /// Number of quarter turns to the left.
    pub open spec fn spec_to_primitive(self) -> u8 {
        match self {
            Rotation::Identity => 0,
            Rotation::QuarterTurnLeft => 1,
            Rotation::HalfTurn => 2,
            Rotation::QuarterTurnRight => 3,
        }
    }

    /// The rotation by `n` quarter turns to the left, taken modulo 4.
    pub open spec fn from_turns(n: int) -> Rotation {
        let m = n % 4;
        if m == 0 {
            Rotation::Identity
        } else if m == 1 {
            Rotation::QuarterTurnLeft
        } else if m == 2 {
            Rotation::HalfTurn
        } else {
            Rotation::QuarterTurnRight
        }
    }

    /// Composition of two rotations.
    pub open spec fn spec_plus(self, rhs: Rotation) -> Rotation {
        Rotation::from_turns(self.spec_to_primitive() + rhs.spec_to_primitive())
    }

    /// Composition of two rotations.
    #[verifier::when_used_as_spec(spec_plus)]
    pub fn plus(self, rhs: Rotation) -> (sum: Rotation)
        ensures
            sum == self.spec_plus(rhs),
    {
        Rotation::new_masked(self.to_primitive() + rhs.to_primitive())
    }

    #[verifier::when_used_as_spec(spec_to_primitive)]
    pub fn to_primitive(self) -> (value: u8)
        ensures
            value == self.spec_to_primitive(),
    {
        match self {
            Rotation::Identity => 0,
            Rotation::QuarterTurnLeft => 1,
            Rotation::HalfTurn => 2,
            Rotation::QuarterTurnRight => 3,
        }
    }

    /// The rotation by `value` quarter turns to the left, taken modulo 4.
    pub fn new_masked(value: u8) -> (rotation: Rotation)
        ensures
            rotation == Rotation::from_turns(value as int),
    {
        let m: u8 = value % 4;
        if m == 0 {
            Rotation::Identity
        } else if m == 1 {
            Rotation::QuarterTurnLeft
        } else if m == 2 {
            Rotation::HalfTurn
        } else {
            Rotation::QuarterTurnRight
        }
    }

    /// The four rotations in the order of their number of quarter turns.
    pub fn iter() -> (rotations: Vec<Rotation>)
        ensures
            rotations@ == seq![
                Rotation::Identity,
                Rotation::QuarterTurnLeft,
                Rotation::HalfTurn,
                Rotation::QuarterTurnRight,
            ],
    {
        vec![
            Rotation::Identity,
            Rotation::QuarterTurnLeft,
            Rotation::HalfTurn,
            Rotation::QuarterTurnRight,
        ]
    }
}

impl core::ops::Add for Rotation {
    type Output = Rotation;

    fn add(self, rhs: Rotation) -> (sum: Rotation) {
        self.plus(rhs)
    }
}

impl vstd::std_specs::ops::AddSpecImpl for Rotation {
    open spec fn obeys_add_spec() -> bool {
        true
    }

    open spec fn add_req(self, rhs: Rotation) -> bool {
        true
    }

    open spec fn add_spec(self, rhs: Rotation) -> Rotation {
        self.plus(rhs)
    }
}

impl core::ops::AddAssign for Rotation {
    fn add_assign(&mut self, rhs: Rotation)
        ensures
            *final(self) == old(self).plus(rhs),
    {
        *self = self.plus(rhs);
    }
}

/// One of the 23 edge colors. `A` is the gray of the board's exterior, `B` to
/// `F` occur next to the border only, `G` to `W` in the interior only.
#[derive(Clone, Copy, Debug, PartialEq, Eq, PartialOrd, Ord, Hash, Structural)]
pub enum Color {
    A,
    B,
    C,
    D,
    E,
    F,
    G,
    H,
    I,
    J,
    K,
    L,
    M,
    N,
    O,
    P,
    Q,
    R,
    S,
    T,
    U,
    V,
    W,
}

impl Color {
    pub const EXTERIOR: Color = Color::A;

    pub const BORDER_COLOR_MIN: Color = Color::B;

    pub const BORDER_COLOR_MAX: Color = Color::F;

    pub const INTERIOR_COLOR_MIN: Color = Color::G;

    pub const INTERIOR_COLOR_MAX: Color = Color::W;

    /// Position of the color in the alphabet, from 0 to 22.
    pub open spec fn spec_to_primitive(self) -> u8 {
        match self {
            Color::A => 0,
            Color::B => 1,
            Color::C => 2,
            Color::D => 3,
            Color::E => 4,
            Color::F => 5,
            Color::G => 6,
            Color::H => 7,
            Color::I => 8,
            Color::J => 9,
            Color::K => 10,
            Color::L => 11,
            Color::M => 12,
            Color::N => 13,
            Color::O => 14,
            Color::P => 15,
            Color::Q => 16,
            Color::R => 17,
            Color::S => 18,
            Color::T => 19,
            Color::U => 20,
            Color::V => 21,
            Color::W => 22,
        }
    }

    /// The color at position `value`, if there is one.
    pub open spec fn spec_new(value: u8) -> Option<Color> {
        match value {
            0 => Some(Color::A),
            1 => Some(Color::B),
            2 => Some(Color::C),
            3 => Some(Color::D),
            4 => Some(Color::E),
            5 => Some(Color::F),
            6 => Some(Color::G),
            7 => Some(Color::H),
            8 => Some(Color::I),
            9 => Some(Color::J),
            10 => Some(Color::K),
            11 => Some(Color::L),
            12 => Some(Color::M),
            13 => Some(Color::N),
            14 => Some(Color::O),
            15 => Some(Color::P),
            16 => Some(Color::Q),
            17 => Some(Color::R),
            18 => Some(Color::S),
            19 => Some(Color::T),
            20 => Some(Color::U),
            21 => Some(Color::V),
            22 => Some(Color::W),
            _ => None,
        }
    }

    pub open spec fn spec_is_border(self) -> bool {
        self == Color::A
    }

    pub open spec fn spec_is_valid_non_border_color(self) -> bool {
        self != Color::A
    }

    /// The color written as the ASCII letter `b`, if `b` is one of `a` to `w`.
    pub open spec fn spec_from_byte_char(b: u8) -> Option<Color> {
        if 97 <= b <= 119 {
            Color::spec_new((b - 97) as u8)
        } else {
            None
        }
    }

    pub open spec fn spec_to_byte_char(self) -> u8 {
        (97 + self.spec_to_primitive()) as u8
    }

    #[verifier::when_used_as_spec(spec_to_primitive)]
    pub fn to_primitive(self) -> (value: u8)
        ensures
            value == self.spec_to_primitive(),
            value <= 22,
            Color::spec_new(value) == Some(self),
    {
        match self {
            Color::A => 0,
            Color::B => 1,
            Color::C => 2,
            Color::D => 3,
            Color::E => 4,
            Color::F => 5,
            Color::G => 6,
            Color::H => 7,
            Color::I => 8,
            Color::J => 9,
            Color::K => 10,
            Color::L => 11,
            Color::M => 12,
            Color::N => 13,
            Color::O => 14,
            Color::P => 15,
            Color::Q => 16,
            Color::R => 17,
            Color::S => 18,
            Color::T => 19,
            Color::U => 20,
            Color::V => 21,
            Color::W => 22,
        }
    }

    /// The color at position `value`; there is one exactly for 0 to 22.
    #[verifier::when_used_as_spec(spec_new)]
    pub fn new(value: u8) -> (color: Option<Color>)
        ensures
            color == Color::spec_new(value),
            color is Some <==> value <= 22,
            color is Some ==> color->0.spec_to_primitive() == value,
    {
        match value {
            0 => Some(Color::A),
            1 => Some(Color::B),
            2 => Some(Color::C),
            3 => Some(Color::D),
            4 => Some(Color::E),
            5 => Some(Color::F),
            6 => Some(Color::G),
            7 => Some(Color::H),
            8 => Some(Color::I),
            9 => Some(Color::J),
            10 => Some(Color::K),
            11 => Some(Color::L),
            12 => Some(Color::M),
            13 => Some(Color::N),
            14 => Some(Color::O),
            15 => Some(Color::P),
            16 => Some(Color::Q),
            17 => Some(Color::R),
            18 => Some(Color::S),
            19 => Some(Color::T),
            20 => Some(Color::U),
            21 => Some(Color::V),
            22 => Some(Color::W),
            _ => None,
        }
    }

    /// All colors in the order of the alphabet.
    pub fn iter() -> (colors: Vec<Color>)
        ensures
            colors@.len() == 23,
            forall|i: int| 0 <= i < 23 ==> (#[trigger] colors@[i]).spec_to_primitive() == i,
    {
        vec![
            Color::A,
            Color::B,
            Color::C,
            Color::D,
            Color::E,
            Color::F,
            Color::G,
            Color::H,
            Color::I,
            Color::J,
            Color::K,
            Color::L,
            Color::M,
            Color::N,
            Color::O,
            Color::P,
            Color::Q,
            Color::R,
            Color::S,
            Color::T,
            Color::U,
            Color::V,
            Color::W,
        ]
    }

    #[verifier::when_used_as_spec(spec_is_border)]
    pub fn is_border(self) -> (border: bool)
        ensures
            border == self.spec_is_border(),
            border <==> self.spec_to_primitive() == 0,
    {
        self == Color::A
    }

    #[verifier::when_used_as_spec(spec_is_valid_non_border_color)]
    pub fn is_valid_non_border_color(self) -> (valid: bool)
        ensures
            valid == self.spec_is_valid_non_border_color(),
            valid <==> 1 <= self.spec_to_primitive() <= 22,
    {
        let value = self.to_primitive();
        value >= 1 && value <= 22
    }

    #[verifier::when_used_as_spec(spec_from_byte_char)]
    pub fn from_byte_char(b: u8) -> (color: Option<Color>)
        ensures
            color == Color::spec_from_byte_char(b),
            color is Some <==> 97 <= b <= 119,
            color is Some ==> color->0.spec_to_byte_char() == b,
    {
        if b >= 97 && b <= 119 {
            Color::new(b - 97)
        } else {
            None
        }
    }

    /// The color written as the letter `c`, if `c` is one of `a` to `w`.
    pub fn from_char(c: char) -> (color: Option<Color>)
        ensures
            color is Some <==> 97 <= c as u32 <= 119,
            color is Some ==> color == Color::spec_from_byte_char(c as u8),
    {
        let code: u32 = c as u32;
        if code < 256 {
            Color::from_byte_char(code as u8)
        } else {
            None
        }
    }

    /// The ASCII letter of the color, from `a` to `w`.
    #[verifier::when_used_as_spec(spec_to_byte_char)]
    pub fn to_byte_char(self) -> (b: u8)
        ensures
            b == self.spec_to_byte_char(),
            97 <= b <= 119,
            Color::spec_from_byte_char(b) == Some(self),
    {
        97 + self.to_primitive()
    }

    /// The letter of the color, from `a` to `w`.
    pub fn to_char(self) -> (c: char)
        ensures
            c as u32 == self.spec_to_byte_char(),
    {
        self.to_byte_char() as char
    }
}

/// One of the 256 tiles, named by its number in the catalog.
#[derive(Clone, Copy, Debug, PartialEq, Eq, PartialOrd, Ord, Hash, Structural)]
pub struct Tile(pub u8);

impl Tile {
    /// The first tile of the catalog.
    pub fn zero() -> (tile: Tile)
        ensures
            tile == Tile(0),
    {
        Tile(0)
    }

    pub open spec fn spec_from_primitive(value: u8) -> Tile {
        Tile(value)
    }

    pub open spec fn spec_to_primitive(self) -> u8 {
        self.0
    }

    /// Color on `side` of the unrotated tile: the color whose letter the
    /// catalog holds for that side, and the exterior where it holds none.
    pub open spec fn spec_color(self, side: Side) -> Color {
        match Color::spec_from_byte_char(
            catalog::edge_letter(4 * self.0 + side.spec_to_primitive()),
        ) {
            Some(color) => color,
            None => Color::A,
        }
    }

    /// The unrotated tile shows the exterior exactly on those of its sides
    /// that lie on the rim of the board on which the catalog lists the tiles
    /// row by row.
    pub proof fn lemma_exterior_is_on_the_rim(self, side: Side)
        ensures
            (self.spec_color(side) == Color::A) == catalog::on_rim(
                self.0 as int,
                side.spec_to_primitive() as int,
            ),
    {
        catalog::lemma_exterior_lies_on_the_rim(4 * self.0 + side.spec_to_primitive());
    }

    #[verifier::when_used_as_spec(spec_from_primitive)]
    pub fn from_primitive(value: u8) -> (tile: Tile)
        ensures
            tile == Tile::spec_from_primitive(value),
    {
        Tile(value)
    }

    #[verifier::when_used_as_spec(spec_to_primitive)]
    pub fn to_primitive(self) -> (value: u8)
        ensures
            value == self.spec_to_primitive(),
    {
        self.0
    }

    /// All tiles in the order of the catalog.
    pub fn values() -> (tiles: Vec<Tile>)
        ensures
            tiles@.len() == 256,
            forall|i: int| 0 <= i < 256 ==> (#[trigger] tiles@[i]).0 == i,
    {
        let mut tiles: Vec<Tile> = Vec::new();
        let mut id: u8 = 0;
        while id < 255
            invariant
                tiles@.len() == id,
                forall|i: int| 0 <= i < id ==> (#[trigger] tiles@[i]).0 == i,
            decreases 255 - id,
        {
            tiles.push(Tile(id));
            id = id + 1;
        }
        tiles.push(Tile(255));
        tiles
    }

    #[verifier::when_used_as_spec(spec_color)]
    pub fn color(self, side: Side) -> (color: Color)
        ensures
            color == self.spec_color(side),
    {
        let index: usize = 4 * (self.0 as usize) + (side.to_primitive() as usize);
        match Color::from_byte_char(catalog::read_edge_letter(index)) {
            Some(color) => color,
            None => Color::A,
        }
    }
}

/// The sides of a rotated tile that show the exterior color.
#[derive(Clone, Copy, Debug, PartialEq, Eq, Hash, Structural)]
pub struct ExteriorMask {
    pub right: bool,
    pub top: bool,
    pub left: bool,
    pub bottom: bool,
}

impl ExteriorMask {
    pub open spec fn spec_zero() -> ExteriorMask {
        ExteriorMask { right: false, top: false, left: false, bottom: false }
    }

    pub open spec fn spec_with_right(self, value: bool) -> ExteriorMask {
        ExteriorMask { right: value, ..self }
    }

    pub open spec fn spec_with_top(self, value: bool) -> ExteriorMask {
        ExteriorMask { top: value, ..self }
    }

    pub open spec fn spec_with_left(self, value: bool) -> ExteriorMask {
        ExteriorMask { left: value, ..self }
    }

    pub open spec fn spec_with_bottom(self, value: bool) -> ExteriorMask {
        ExteriorMask { bottom: value, ..self }
    }

    /// The mask with no exterior side.
    #[verifier::when_used_as_spec(spec_zero)]
    pub fn zero() -> (mask: ExteriorMask)
        ensures
            mask == ExteriorMask::spec_zero(),
    {
        ExteriorMask { right: false, top: false, left: false, bottom: false }
    }

    #[verifier::when_used_as_spec(spec_with_right)]
    pub fn with_right(self, value: bool) -> (mask: ExteriorMask)
        ensures
            mask == self.spec_with_right(value),
    {
        ExteriorMask { right: value, top: self.top, left: self.left, bottom: self.bottom }
    }

    #[verifier::when_used_as_spec(spec_with_top)]
    pub fn with_top(self, value: bool) -> (mask: ExteriorMask)
        ensures
            mask == self.spec_with_top(value),
    {
        ExteriorMask { right: self.right, top: value, left: self.left, bottom: self.bottom }
    }

    #[verifier::when_used_as_spec(spec_with_left)]
    pub fn with_left(self, value: bool) -> (mask: ExteriorMask)
        ensures
            mask == self.spec_with_left(value),
    {
        ExteriorMask { right: self.right, top: self.top, left: value, bottom: self.bottom }
    }

    #[verifier::when_used_as_spec(spec_with_bottom)]
    pub fn with_bottom(self, value: bool) -> (mask: ExteriorMask)
        ensures
            mask == self.spec_with_bottom(value),
    {
        ExteriorMask { right: self.right, top: self.top, left: self.left, bottom: value }
    }
}

/// A tile together with the rotation in which it is laid down.
#[derive(Clone, Copy, Debug, PartialEq, Eq, PartialOrd, Ord, Hash, Structural)]
pub struct RotatedTile {
    pub tile: Tile,
    pub rotation: Rotation,
}

impl RotatedTile {
    /// The least rotated tile: the first tile of the catalog, unrotated.
    pub open spec fn spec_zero() -> RotatedTile {
        RotatedTile { tile: Tile(0), rotation: Rotation::Identity }
    }

    /// The greatest rotated tile: the last tile of the catalog in its last
    /// rotation.
    pub open spec fn spec_maximum() -> RotatedTile {
        RotatedTile { tile: Tile(255), rotation: Rotation::QuarterTurnRight }
    }

    #[verifier::when_used_as_spec(spec_zero)]
    pub fn zero() -> (tile: RotatedTile)
        ensures
            tile == RotatedTile::spec_zero(),
    {
        RotatedTile { tile: Tile(0), rotation: Rotation::Identity }
    }

    #[verifier::when_used_as_spec(spec_maximum)]
    pub fn maximum() -> (tile: RotatedTile)
        ensures
            tile == RotatedTile::spec_maximum(),
    {
        RotatedTile { tile: Tile(255), rotation: Rotation::QuarterTurnRight }
    }

    /// Color that the rotated tile shows on `side`: the color of the side of
    /// the unrotated tile that the rotation has carried there.
    pub open spec fn spec_color(self, side: Side) -> Color {
        self.tile.spec_color(side.spec_reverse_transform(self.rotation))
    }

    pub open spec fn spec_exterior_mask(self) -> ExteriorMask {
        ExteriorMask {
            right: self.spec_color(Side::Right) == Color::A,
            top: self.spec_color(Side::Top) == Color::A,
            left: self.spec_color(Side::Left) == Color::A,
            bottom: self.spec_color(Side::Bottom) == Color::A,
        }
    }

    /// The same tile, turned further by `rhs`.
    pub open spec fn spec_plus(self, rhs: Rotation) -> RotatedTile {
        RotatedTile { tile: self.tile, rotation: self.rotation.plus(rhs) }
    }

    /// The same tile, turned further by `rhs`.
    #[verifier::when_used_as_spec(spec_plus)]
    pub fn plus(self, rhs: Rotation) -> (sum: RotatedTile)
        ensures
            sum == self.spec_plus(rhs),
    {
        RotatedTile { tile: self.tile, rotation: self.rotation.plus(rhs) }
    }

    /// Rank of the rotated tile in the order by tile number, then rotation.
    pub open spec fn spec_rank(self) -> u16 {
        (4 * self.tile.0 + self.rotation.spec_to_primitive()) as u16
    }

    #[verifier::when_used_as_spec(spec_color)]
    pub fn color(self, side: Side) -> (color: Color)
        ensures
            color == self.spec_color(side),
    {
        self.tile.color(side.reverse_transform(self.rotation))
    }

    #[verifier::when_used_as_spec(spec_exterior_mask)]
    pub fn exterior_mask(self) -> (mask: ExteriorMask)
        ensures
            mask == self.spec_exterior_mask(),
    {
        ExteriorMask::zero().with_right(self.color(Side::Right) == Color::A).with_top(
            self.color(Side::Top) == Color::A,
        ).with_left(self.color(Side::Left) == Color::A).with_bottom(
            self.color(Side::Bottom) == Color::A,
        )
    }

    #[verifier::when_used_as_spec(spec_rank)]
    pub fn rank(self) -> (rank: u16)
        ensures
            rank == self.spec_rank(),
            rank < 1024,
    {
        4 * (self.tile.0 as u16) + (self.rotation.to_primitive() as u16)
    }
}

impl core::ops::Add<Rotation> for RotatedTile {
    type Output = RotatedTile;

    fn add(self, rhs: Rotation) -> (sum: RotatedTile) {
        self.plus(rhs)
    }
}

impl vstd::std_specs::ops::AddSpecImpl<Rotation> for RotatedTile {
    open spec fn obeys_add_spec() -> bool {
        true
    }

    open spec fn add_req(self, rhs: Rotation) -> bool {
        true
    }

    open spec fn add_spec(self, rhs: Rotation) -> RotatedTile {
        self.plus(rhs)
    }
}

impl core::ops::AddAssign<Rotation> for RotatedTile {
    fn add_assign(&mut self, rhs: Rotation)
        ensures
            *final(self) == old(self).plus(rhs),
    {
        self.rotation = self.rotation.plus(rhs);
    }
}

/// Turning a rotated tile moves each of its colors along: what the turned
/// tile shows on the side that `rotation` carries `side` onto is what the
/// tile showed on `side`.
pub proof fn lemma_color_follows_rotation(tile: RotatedTile, rotation: Rotation, side: Side)
    ensures
        tile.plus(rotation).spec_color(side.spec_transform(rotation)) == tile.spec_color(side),
{
}

/// A quarter turn to the left carries the right side to the top, the top to
/// the left, the left to the bottom and the bottom to the right.
pub proof fn lemma_quarter_turn_carries_sides()
    ensures
        Side::Right.spec_transform(Rotation::QuarterTurnLeft) == Side::Top,
        Side::Top.spec_transform(Rotation::QuarterTurnLeft) == Side::Left,
        Side::Left.spec_transform(Rotation::QuarterTurnLeft) == Side::Bottom,
        Side::Bottom.spec_transform(Rotation::QuarterTurnLeft) == Side::Right,
{
}

/// Composing rotations is associative.
pub proof fn lemma_rotation_plus_is_associative(a: Rotation, b: Rotation, c: Rotation)
    ensures
        a.plus(b).plus(c) == a.plus(b.plus(c)),
{
}

/// Carrying a side along by two rotations in turn is carrying it along by
/// their composition.
pub proof fn lemma_transform_composes(side: Side, a: Rotation, b: Rotation)
    ensures
        side.spec_transform(a).spec_transform(b) == side.spec_transform(a.plus(b)),
{
}

/// A number from 0 to 15: a column or a row of the board.
#[derive(Clone, Copy, Debug, PartialEq, Eq, PartialOrd, Ord, Hash)]
pub struct U4 {
    value: u8,
}

impl U4 {
    #[verifier::type_invariant]
    spec fn in_range(self) -> bool {
        self.value < 16
    }

    pub closed spec fn spec_to_primitive(self) -> u8 {
        self.value
    }

    /// The number `value` modulo 16.
    pub closed spec fn spec_new_masked(value: int) -> U4 {
        U4 { value: (value % 16) as u8 }
    }

    /// Two numbers of the same value are the same.
    pub proof fn lemma_value_determines(self, other: U4)
        requires
            self.spec_to_primitive() == other.spec_to_primitive(),
        ensures
            self == other,
    {
    }

    /// Two values that are the same modulo 16 make the same number.
    pub proof fn lemma_new_masked_goes_by_remainder(a: int, b: int)
        requires
            a % 16 == b % 16,
        ensures
            U4::spec_new_masked(a) == U4::spec_new_masked(b),
    {
    }

    /// A number made of a value has that value modulo 16.
    pub proof fn lemma_new_masked(value: int)
        ensures
            U4::spec_new_masked(value).spec_to_primitive() == value % 16,
    {
    }

    /// The number `value`, if it is below 16.
    pub fn new(value: u8) -> (number: Option<U4>)
        ensures
            number is Some <==> value < 16,
            number is Some ==> number->0 == U4::spec_new_masked(value as int),
            number is Some ==> number->0.spec_to_primitive() == value,
    {
        if value < 16 {
            Some(U4 { value })
        } else {
            None
        }
    }

    /// The number `value` modulo 16.
    pub fn new_masked(value: u8) -> (number: U4)
        ensures
            number == U4::spec_new_masked(value as int),
            number.spec_to_primitive() == value % 16,
    {
        U4 { value: value % 16 }
    }

    #[verifier::when_used_as_spec(spec_to_primitive)]
    pub fn to_primitive(self) -> (value: u8)
        ensures
            value == self.spec_to_primitive(),
            value < 16,
            self == U4::spec_new_masked(value as int),
    {
        proof {
            use_type_invariant(self);
        }
        self.value
    }
}

/// The places of the five clue tiles on the board: the column, the row, and
/// the tile in the rotation in which it lies there.
pub open spec fn spec_hints() -> Seq<(U4, U4, RotatedTile)> {
    seq![
        (
            U4::spec_new_masked(7),
            U4::spec_new_masked(8),
            RotatedTile { tile: Tile(135), rotation: Rotation::Identity },
        ),
        (
            U4::spec_new_masked(2),
            U4::spec_new_masked(2),
            RotatedTile { tile: Tile(76), rotation: Rotation::Identity },
        ),
        (
            U4::spec_new_masked(13),
            U4::spec_new_masked(2),
            RotatedTile { tile: Tile(179), rotation: Rotation::QuarterTurnLeft },
        ),
        (
            U4::spec_new_masked(2),
            U4::spec_new_masked(13),
            RotatedTile { tile: Tile(211), rotation: Rotation::HalfTurn },
        ),
        (
            U4::spec_new_masked(13),
            U4::spec_new_masked(13),
            RotatedTile { tile: Tile(125), rotation: Rotation::QuarterTurnRight },
        ),
    ]
}

/// The places of the five clue tiles on the board.
pub fn hints() -> (hints: Vec<(U4, U4, RotatedTile)>)
    ensures
        hints@ == spec_hints(),
{
    let hints = vec![
        (
            U4::new_masked(7),
            U4::new_masked(8),
            RotatedTile { tile: Tile(135), rotation: Rotation::Identity },
        ),
        (
            U4::new_masked(2),
            U4::new_masked(2),
            RotatedTile { tile: Tile(76), rotation: Rotation::Identity },
        ),
        (
            U4::new_masked(13),
            U4::new_masked(2),
            RotatedTile { tile: Tile(179), rotation: Rotation::QuarterTurnLeft },
        ),
        (
            U4::new_masked(2),
            U4::new_masked(13),
            RotatedTile { tile: Tile(211), rotation: Rotation::HalfTurn },
        ),
        (
            U4::new_masked(13),
            U4::new_masked(13),
            RotatedTile { tile: Tile(125), rotation: Rotation::QuarterTurnRight },
        ),
    ];
    assert(hints@ =~= spec_hints());
    hints
}

} // verus!
