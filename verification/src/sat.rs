use crate::edge::push_char;
use crate::{Color, RotatedTile, Rotation, Tile, U4};
use vstd::prelude::*;

verus! {

/// A variable of the puzzle as a satisfiability problem, or its negation: the
/// number of the variable, with a minus sign for the negation.
#[derive(Clone, Copy, Debug, PartialEq, Eq, Structural)]
pub struct Literal(pub isize);

impl Literal {
    /// The literal that says that `variable` holds.
    pub fn positive(variable: Variable) -> (literal: Literal)
        requires
            variable.0 <= isize::MAX,
        ensures
            literal.0 == variable.0,
    {
        Literal(variable.0 as isize)
    }

    /// The literal that says that `variable` does not hold.
    pub fn negative(variable: Variable) -> (literal: Literal)
        requires
            variable.0 <= isize::MAX,
        ensures
            literal.0 == -variable.0,
    {
        Literal(-(variable.0 as isize))
    }
}

/// The character of a digit.
pub open spec fn digit(value: int) -> char {
    (48 + value) as u8 as char
}

/// A natural number written in decimal digits.
pub open spec fn digits(value: nat) -> Seq<char>
    decreases value,
{
    if value < 10 {
        seq![digit(value as int)]
    } else {
        digits(value / 10).push(digit((value % 10) as int))
    }
}

/// An integer written in decimal digits, with a minus sign before them if
/// it is negative.
pub open spec fn decimal(value: int) -> Seq<char> {
    if value < 0 {
        seq!['-'] + digits((-value) as nat)
    } else {
        digits(value as nat)
    }
}

/// `to_string` of std on an `isize`: the number in decimal digits, with a
/// minus sign before them if it is negative.
#[verifier::external_body]
fn decimal_string(value: isize) -> (text: String)
    ensures
        text@ == decimal(value as int),
{
    value.to_string()
}

/// `String::push_str` of std: the string afterwards holds the characters it
/// held, followed by those of `more`.
#[verifier::external_body]
fn push_string(text: &mut String, more: &String)
    ensures
        final(text)@ == old(text)@ + more@,
{
    text.push_str(more);
}

/// The line that writes the literals `literals` as a clause.
pub open spec fn spec_dimacs_line(literals: Seq<Literal>) -> Seq<char>
    decreases literals.len(),
{
    if literals.len() == 0 {
        seq![' ', '0', '\n']
    } else if literals.len() == 1 {
        decimal(literals[0].0 as int) + seq![' ', '0', '\n']
    } else {
        decimal(literals[0].0 as int) + seq![' '] + spec_dimacs_line(literals.drop_first())
    }
}

/// Adds to `text` the line that writes `literals` from position `from` on as
/// a clause.
fn push_dimacs_line(text: &mut String, literals: &[Literal], from: usize)
    requires
        from <= literals@.len(),
    ensures
        final(text)@ == old(text)@ + spec_dimacs_line(literals@.skip(from as int)),
    decreases literals@.len() - from,
{
    let ghost rest = literals@.skip(from as int);
    if from < literals.len() {
        let written = decimal_string(literals[from].0);
        push_string(text, &written);
        push_char(text, ' ');
        if from + 1 < literals.len() {
            let ghost between = text@;
            push_dimacs_line(text, literals, from + 1);
            proof {
                assert(rest.drop_first() =~= literals@.skip(from + 1));
                assert(text@ =~= old(text)@ + spec_dimacs_line(rest));
            }
        } else {
            push_char(text, '0');
            push_char(text, '\n');
            proof {
                assert(rest.len() == 1);
                assert(text@ =~= old(text)@ + spec_dimacs_line(rest));
            }
        }
    } else {
        push_char(text, ' ');
        push_char(text, '0');
        push_char(text, '\n');
        proof {
            assert(text@ =~= old(text)@ + spec_dimacs_line(rest));
        }
    }
}

/// A clause of two literals: one of them holds.
pub struct BinaryClause {
    pub literals: [Literal; 2],
}

impl BinaryClause {
    pub fn new(a: Literal, b: Literal) -> (clause: BinaryClause)
        ensures
            clause.literals@ == seq![a, b],
    {
        let clause = BinaryClause { literals: [a, b] };
        assert(clause.literals@ =~= seq![a, b]);
        clause
    }

    /// Writes the clause to the end of `w`, as a line of its own: its
    /// literals and a closing zero.
    pub fn print_dimacs_fragment(&self, w: &mut String)
        ensures
            final(w)@ == old(w)@ + spec_dimacs_line(self.literals@),
    {
        push_dimacs_line(w, self.literals.as_slice(), 0);
        proof {
            assert(self.literals@.skip(0) =~= self.literals@);
        }
    }
}

/// A clause of any number of literals: one of them holds.
pub struct LongClause {
    pub literals: Vec<Literal>,
}

impl LongClause {
    pub fn new(literals: Vec<Literal>) -> (clause: LongClause)
        ensures
            clause.literals == literals,
    {
        LongClause { literals }
    }

    /// Writes the clause to the end of `w`, as a line of its own: its
    /// literals and a closing zero.
    pub fn print_dimacs_fragment(&self, w: &mut String)
        ensures
            final(w)@ == old(w)@ + spec_dimacs_line(self.literals@),
    {
        push_dimacs_line(w, self.literals.as_slice(), 0);
        proof {
            assert(self.literals@.skip(0) =~= self.literals@);
        }
    }
}

/// The clauses of a problem: those of two literals, and the others.
#[derive(Default)]
pub struct Clauses {
    pub binary: Vec<BinaryClause>,
    pub long: Vec<LongClause>,
}

/// The clauses that say of each variable after the first that it and any
/// variable that stands two or more places before it do not both hold, for
/// the first `count` of these variables.
pub open spec fn at_most_one_pairs(variables: Seq<Variable>, count: nat) -> Seq<(int, int)>
    decreases count,
{
    if count == 0 {
        Seq::empty()
    } else {
        at_most_one_pairs(variables, (count - 1) as nat) + Seq::new(
            (count - 1) as nat,
            |k: int| (-(variables[count as int].0 as int), -(variables[k].0 as int)),
        )
    }
}

/// The two numbers of each of the clauses `clauses`.
pub open spec fn pairs_of(clauses: Seq<BinaryClause>) -> Seq<(int, int)> {
    Seq::new(
        clauses.len(),
        |i: int| (clauses[i].literals@[0].0 as int, clauses[i].literals@[1].0 as int),
    )
}

/// The text of `count` lines, one for each of the first clauses of two
/// literals.
pub open spec fn spec_binary_lines(clauses: Seq<BinaryClause>, count: nat) -> Seq<char>
    decreases count,
{
    if count == 0 {
        Seq::empty()
    } else {
        spec_binary_lines(clauses, (count - 1) as nat) + spec_dimacs_line(
            clauses[count - 1].literals@,
        )
    }
}

/// The text of `count` lines, one for each of the first of the other clauses.
pub open spec fn spec_long_lines(clauses: Seq<LongClause>, count: nat) -> Seq<char>
    decreases count,
{
    if count == 0 {
        Seq::empty()
    } else {
        spec_long_lines(clauses, (count - 1) as nat) + spec_dimacs_line(
            clauses[count - 1].literals@,
        )
    }
}

impl Clauses {
    /// No clauses.
    pub fn new() -> (clauses: Clauses)
        ensures
            clauses.binary@.len() == 0,
            clauses.long@.len() == 0,
    {
        Clauses { binary: Vec::new(), long: Vec::new() }
    }

    pub fn push_binary(&mut self, a: Literal, b: Literal)
        ensures
            final(self).long == old(self).long,
            final(self).binary@.len() == old(self).binary@.len() + 1,
            final(self).binary@.drop_last() == old(self).binary@,
            final(self).binary@.last().literals@ == seq![a, b],
            pairs_of(final(self).binary@) == pairs_of(old(self).binary@).push(
                (a.0 as int, b.0 as int),
            ),
    {
        let ghost before = self.binary@;
        self.binary.push(BinaryClause::new(a, b));
        assert(self.binary@.drop_last() =~= before);
        assert(pairs_of(self.binary@) =~= pairs_of(before).push((a.0 as int, b.0 as int)));
    }

    pub fn push_long(&mut self, literals: Vec<Literal>)
        ensures
            final(self).binary == old(self).binary,
            final(self).long@.len() == old(self).long@.len() + 1,
            final(self).long@.drop_last() == old(self).long@,
            final(self).long@.last().literals == literals,
    {
        let ghost before = self.long@;
        self.long.push(LongClause::new(literals));
        assert(self.long@.drop_last() =~= before);
    }

    pub fn push_unit(&mut self, literal: Literal)
        ensures
            final(self).binary == old(self).binary,
            final(self).long@.len() == old(self).long@.len() + 1,
            final(self).long@.drop_last() == old(self).long@,
            final(self).long@.last().literals@ == seq![literal],
    {
        let ghost before = self.long@;
        let mut literals: Vec<Literal> = Vec::new();
        literals.push(literal);
        self.long.push(LongClause::new(literals));
        assert(self.long@.drop_last() =~= before);
    }

    /// Number of clauses.
    pub fn len(&self) -> (len: usize)
        requires
            self.binary@.len() + self.long@.len() <= usize::MAX,
        ensures
            len == self.binary@.len() + self.long@.len(),
    {
        self.binary.len() + self.long.len()
    }

    /// Writes the clauses to the end of `w`, each as a line of its own:
    /// those of two literals first.
    pub fn print_dimacs_fragment(&self, w: &mut String)
        ensures
            final(w)@ == old(w)@ + spec_binary_lines(self.binary@, self.binary@.len())
                + spec_long_lines(self.long@, self.long@.len()),
    {
        let ghost start = w@;
        let mut i: usize = 0;
        proof {
            assert(start + spec_binary_lines(self.binary@, 0) =~= start);
        }
        while i < self.binary.len()
            invariant
                i <= self.binary@.len(),
                w@ == start + spec_binary_lines(self.binary@, i as nat),
            decreases self.binary@.len() - i,
        {
            self.binary[i].print_dimacs_fragment(w);
            proof {
                assert(w@ =~= start + spec_binary_lines(self.binary@, (i + 1) as nat));
            }
            i = i + 1;
        }
        let ghost first = w@;
        let mut j: usize = 0;
        proof {
            assert(first + spec_long_lines(self.long@, 0) =~= first);
        }
        while j < self.long.len()
            invariant
                j <= self.long@.len(),
                first == start + spec_binary_lines(self.binary@, self.binary@.len()),
                w@ == first + spec_long_lines(self.long@, j as nat),
            decreases self.long@.len() - j,
        {
            self.long[j].print_dimacs_fragment(w);
            proof {
                assert(w@ =~= first + spec_long_lines(self.long@, (j + 1) as nat));
            }
            j = j + 1;
        }
    }

    /// Adds, for each variable after the first, the clauses that say that it
    /// and any variable that stands two or more places before it do not both
    /// hold.
    pub fn emit_at_most_one_of(&mut self, variables: &[Variable])
        requires
            variables@.len() >= 1,
            forall|i: int| 0 <= i < variables@.len() ==> (#[trigger] variables@[i]).0 <= isize::MAX,
        ensures
            final(self).long == old(self).long,
            pairs_of(final(self).binary@) == pairs_of(old(self).binary@) + at_most_one_pairs(
                variables@,
                (variables@.len() - 1) as nat,
            ),
    {
        let ghost before = pairs_of(self.binary@);
        let count = variables.len() - 1;
        let mut i: usize = 0;
        proof {
            assert(before + at_most_one_pairs(variables@, 0) =~= before);
        }
        while i < count
            invariant
                i <= count,
                count == variables@.len() - 1,
                forall|i: int|
                    0 <= i < variables@.len() ==> (#[trigger] variables@[i]).0 <= isize::MAX,
                self.long == old(self).long,
                pairs_of(self.binary@) == before + at_most_one_pairs(variables@, i as nat),
            decreases count - i,
        {
            let a = variables[i + 1];
            let ghost done = pairs_of(self.binary@);
            let mut k: usize = 0;
            proof {
                assert(done + Seq::<(int, int)>::empty() =~= done);
            }
            while k < i
                invariant
                    k <= i,
                    i < count,
                    count == variables@.len() - 1,
                    a == variables@[i + 1],
                    forall|i: int|
                        0 <= i < variables@.len() ==> (#[trigger] variables@[i]).0 <= isize::MAX,
                    self.long == old(self).long,
                    pairs_of(self.binary@) == done + Seq::new(
                        k as nat,
                        |k: int| (-(variables@[i + 1].0 as int), -(variables@[k].0 as int)),
                    ),
                decreases i - k,
            {
                let b = variables[k];
                self.push_binary(Literal::negative(a), Literal::negative(b));
                proof {
                    assert(Seq::new(
                        k as nat,
                        |k: int| (-(variables@[i + 1].0 as int), -(variables@[k].0 as int)),
                    ).push((-(a.0 as int), -(b.0 as int))) =~= Seq::new(
                        (k + 1) as nat,
                        |k: int| (-(variables@[i + 1].0 as int), -(variables@[k].0 as int)),
                    ));
                }
                k = k + 1;
            }
            proof {
                assert(pairs_of(self.binary@) =~= before + at_most_one_pairs(
                    variables@,
                    (i + 1) as nat,
                ));
            }
            i = i + 1;
        }
    }

    /// Adds the clause that says that one of `variables` holds.
    pub fn emit_at_least_one_of(&mut self, variables: &[Variable])
        requires
            forall|i: int| 0 <= i < variables@.len() ==> (#[trigger] variables@[i]).0 <= isize::MAX,
        ensures
            final(self).binary == old(self).binary,
            final(self).long@.len() == old(self).long@.len() + 1,
            final(self).long@.drop_last() == old(self).long@,
            final(self).long@.last().literals@.len() == variables@.len(),
            forall|i: int|
                0 <= i < variables@.len() ==> (#[trigger] final(self).long@.last().literals@[i]).0
                    == variables@[i].0,
    {
        let mut literals: Vec<Literal> = Vec::new();
        let mut i: usize = 0;
        while i < variables.len()
            invariant
                i <= variables@.len(),
                literals@.len() == i,
                forall|i: int|
                    0 <= i < variables@.len() ==> (#[trigger] variables@[i]).0 <= isize::MAX,
                forall|k: int| 0 <= k < i ==> (#[trigger] literals@[k]).0 == variables@[k].0,
            decreases variables@.len() - i,
        {
            literals.push(Literal::positive(variables[i]));
            i = i + 1;
        }
        self.push_long(literals);
    }
}

/// A variable of the puzzle as a satisfiability problem, by its number. The
/// variables are numbered from 1: first those that say which tile lies in
/// which rotation in which cell, then those that say which color lies between
/// a cell and its right neighbour, then those that say which color lies
/// between a cell and its lower neighbour. Columns are counted from the left
/// and rows from the top, both from 0 to 15.
#[derive(Clone, Copy, Debug, Hash, PartialEq, Eq, PartialOrd, Ord, Structural)]
pub struct Variable(pub usize);

impl From<usize> for Variable {
    fn from(index: usize) -> (variable: Variable) {
        Variable(index)
    }
}

impl vstd::std_specs::convert::FromSpecImpl<usize> for Variable {
    open spec fn obeys_from_spec() -> bool {
        true
    }

    open spec fn from_spec(index: usize) -> Variable {
        Variable(index)
    }
}

impl From<Variable> for usize {
    fn from(variable: Variable) -> (index: usize) {
        variable.0
    }
}

impl vstd::std_specs::convert::FromSpecImpl<Variable> for usize {
    open spec fn obeys_from_spec() -> bool {
        true
    }

    open spec fn from_spec(variable: Variable) -> usize {
        variable.0
    }
}

/// What a variable says.
#[derive(Clone, Copy, Debug, PartialEq, Eq, Hash)]
pub enum VariableKind {
    TilePlacement { x: U4, y: U4, rotated_tile: RotatedTile },
    RightEdgeColor { x: U4, y: U4, color: Color },
    BottomEdgeColor { x: U4, y: U4, color: Color },
}

impl Variable {
    pub const TILE_PLACEMENT_BASE: usize = 1;

    pub const TILE_PLACEMENT_COUNT: usize = 262144;

    pub const RIGHT_EDGE_COLOR_BASE: usize = 262145;

    pub const RIGHT_EDGE_COLOR_COUNT: usize = 5280;

    pub const BOTTOM_EDGE_COLOR_BASE: usize = 267425;

    pub const BOTTOM_EDGE_COLOR_COUNT: usize = 5280;

    /// Number of variables.
    pub const COUNT: usize = 272704;

    /// The color at position `value`, or the exterior where there is none.
    pub open spec fn color_of(value: int) -> Color {
        match Color::spec_new(value as u8) {
            Some(color) => color,
            None => Color::A,
        }
    }

    /// What the variable at position `i` of those for tiles says.
    pub open spec fn spec_tile_placement(i: int) -> VariableKind {
        VariableKind::TilePlacement {
            x: U4::spec_new_masked(i / 1024),
            y: U4::spec_new_masked(i / 16384),
            rotated_tile: RotatedTile {
                tile: Tile(((i / 4) % 256) as u8),
                rotation: Rotation::from_turns(i % 4),
            },
        }
    }

    /// What the variable at position `i` of those for colors to the right
    /// says.
    pub open spec fn spec_right_edge_color(i: int) -> VariableKind {
        VariableKind::RightEdgeColor {
            x: U4::spec_new_masked(i / 22 % 15),
            y: U4::spec_new_masked(i / 330),
            color: Variable::color_of(i % 22 + 1),
        }
    }

    /// What the variable at position `i` of those for colors below says.
    pub open spec fn spec_bottom_edge_color(i: int) -> VariableKind {
        VariableKind::BottomEdgeColor {
            x: U4::spec_new_masked(i / 22),
            y: U4::spec_new_masked(i / 352),
            color: Variable::color_of(i % 22 + 1),
        }
    }

    /// What the variable says, read off its number.
    pub open spec fn spec_kind(self) -> VariableKind {
        if self.0 < 262145 {
            Variable::spec_tile_placement(self.0 - 1)
        } else if self.0 < 267425 {
            Variable::spec_right_edge_color(self.0 - 262145)
        } else {
            Variable::spec_bottom_edge_color(self.0 - 267425)
        }
    }

    fn tile_placement(i: usize) -> (kind: VariableKind)
        ensures
            kind == Variable::spec_tile_placement(i as int),
    {
        let x = U4::new_masked(((i / 1024) % 16) as u8);
        let y = U4::new_masked(((i / 16384) % 16) as u8);
        let tile = Tile::from_primitive(((i / 4) % 256) as u8);
        let rotation = Rotation::new_masked((i % 4) as u8);
        proof {
            U4::lemma_new_masked_goes_by_remainder(((i / 1024) % 16) as int, (i / 1024) as int);
            U4::lemma_new_masked_goes_by_remainder(((i / 16384) % 16) as int, (i / 16384) as int);
        }
        VariableKind::TilePlacement { x, y, rotated_tile: RotatedTile { tile, rotation } }
    }

    fn right_edge_color(i: usize) -> (kind: VariableKind)
        ensures
            kind == Variable::spec_right_edge_color(i as int),
    {
        let color = match Color::new((i % 22 + 1) as u8) {
            Some(color) => color,
            None => Color::A,
        };
        let x = U4::new_masked((i / 22 % 15) as u8);
        let y = U4::new_masked(((i / 330) % 16) as u8);
        proof {
            U4::lemma_new_masked_goes_by_remainder(((i / 330) % 16) as int, (i / 330) as int);
        }
        VariableKind::RightEdgeColor { x, y, color }
    }

    fn bottom_edge_color(i: usize) -> (kind: VariableKind)
        ensures
            kind == Variable::spec_bottom_edge_color(i as int),
    {
        let color = match Color::new((i % 22 + 1) as u8) {
            Some(color) => color,
            None => Color::A,
        };
        let x = U4::new_masked(((i / 22) % 16) as u8);
        let y = U4::new_masked(((i / 352) % 16) as u8);
        proof {
            U4::lemma_new_masked_goes_by_remainder(((i / 22) % 16) as int, (i / 22) as int);
            U4::lemma_new_masked_goes_by_remainder(((i / 352) % 16) as int, (i / 352) as int);
        }
        VariableKind::BottomEdgeColor { x, y, color }
    }

    /// The variable that says that `rotated_tile` lies in column `x` of row
    /// `y`.
    pub fn for_tile_placement(x: U4, y: U4, rotated_tile: RotatedTile) -> (variable: Variable)
        ensures
            variable.0 == 16384 * y.spec_to_primitive() + 1024 * x.spec_to_primitive() + 4
                * rotated_tile.tile.0 + rotated_tile.rotation.spec_to_primitive() + 1,
            1 <= variable.0 < 262145,
            variable.spec_kind() == (VariableKind::TilePlacement { x, y, rotated_tile }),
    {
        let column = x.to_primitive();
        let row = y.to_primitive();
        let variable = Variable(
            16384 * (row as usize) + 1024 * (column as usize) + 4 * (rotated_tile.tile.0 as usize)
                + (rotated_tile.rotation.to_primitive() as usize) + 1,
        );
        proof {
            let i = variable.0 - 1;
            lemma_tile_placement_parts(
                row as int,
                column as int,
                rotated_tile.tile.0 as int,
                rotated_tile.rotation.spec_to_primitive() as int,
            );
            U4::lemma_new_masked(i / 1024);
            U4::lemma_new_masked(i / 16384);
            x.lemma_value_determines(U4::spec_new_masked(i / 1024));
            y.lemma_value_determines(U4::spec_new_masked(i / 16384));
            assert(Rotation::from_turns(i % 4) == rotated_tile.rotation);
            assert(Tile(((i / 4) % 256) as u8) == rotated_tile.tile);
        }
        variable
    }

    /// The variable that says that `color` lies between the cell in column
    /// `x` of row `y` and its right neighbour. There is such a neighbour in
    /// the columns before the last only, and no exterior between cells.
    pub fn for_right_edge_color(x: U4, y: U4, color: Color) -> (variable: Variable)
        requires
            x.spec_to_primitive() < 15,
            color.spec_is_valid_non_border_color(),
        ensures
            variable.0 == 330 * y.spec_to_primitive() + 22 * x.spec_to_primitive() + (
            color.spec_to_primitive() - 1) + 262145,
            262145 <= variable.0 < 267425,
            variable.spec_kind() == (VariableKind::RightEdgeColor { x, y, color }),
    {
        let column = x.to_primitive();
        let row = y.to_primitive();
        let shade = color.to_primitive();
        let variable = Variable(
            330 * (row as usize) + 22 * (column as usize) + ((shade as usize) - 1) + 262145,
        );
        proof {
            let i = variable.0 - 262145;
            assert(i / 22 == 15 * row + column);
            assert(i / 22 % 15 == column as int);
            assert(i / 330 == row as int);
            assert(i % 22 + 1 == shade as int);
            U4::lemma_new_masked(i / 22 % 15);
            U4::lemma_new_masked(i / 330);
            x.lemma_value_determines(U4::spec_new_masked(i / 22 % 15));
            y.lemma_value_determines(U4::spec_new_masked(i / 330));
        }
        variable
    }

    /// The variable that says that `color` lies between the cell in column
    /// `x` of row `y` and its lower neighbour. There is such a neighbour in
    /// the rows before the last only, and no exterior between cells.
    pub fn for_bottom_edge_color(x: U4, y: U4, color: Color) -> (variable: Variable)
        requires
            y.spec_to_primitive() < 15,
            color.spec_is_valid_non_border_color(),
        ensures
            variable.0 == 352 * y.spec_to_primitive() + 22 * x.spec_to_primitive() + (
            color.spec_to_primitive() - 1) + 267425,
            267425 <= variable.0 <= 272704,
            variable.spec_kind() == (VariableKind::BottomEdgeColor { x, y, color }),
    {
        let column = x.to_primitive();
        let row = y.to_primitive();
        let shade = color.to_primitive();
        let variable = Variable(
            352 * (row as usize) + 22 * (column as usize) + ((shade as usize) - 1) + 267425,
        );
        proof {
            let i = variable.0 - 267425;
            assert(i / 22 == 16 * row + column);
            assert(i / 352 == row as int);
            assert(i % 22 + 1 == shade as int);
            U4::lemma_new_masked(i / 22);
            U4::lemma_new_masked(i / 352);
            x.lemma_value_determines(U4::spec_new_masked(i / 22));
            y.lemma_value_determines(U4::spec_new_masked(i / 352));
        }
        variable
    }

    /// What the variable says. Variables are numbered from 1.
    pub fn kind(self) -> (kind: VariableKind)
        requires
            self.0 >= 1,
        ensures
            kind == self.spec_kind(),
    {
        if self.0 < 262145 {
            Variable::tile_placement(self.0 - 1)
        } else if self.0 < 267425 {
            Variable::right_edge_color(self.0 - 262145)
        } else {
            Variable::bottom_edge_color(self.0 - 267425)
        }
    }
}

/// Where the color on `side` of the cell in column `x` of row `y` stands in
/// the list of the colors of a board, which gives for each cell, row by row,
/// its colors at the top, to the right, at the bottom and to the left.
pub fn board_edge_index(x: U4, y: U4, side: crate::Side) -> (index: usize)
    ensures
        index == 64 * y.spec_to_primitive() + 4 * x.spec_to_primitive() + match side {
            crate::Side::Top => 0int,
            crate::Side::Right => 1int,
            crate::Side::Bottom => 2int,
            crate::Side::Left => 3int,
        },
        index < 1024,
{
    let column = x.to_primitive();
    let row = y.to_primitive();
    64 * (row as usize) + 4 * (column as usize) + match side {
        crate::Side::Top => 0,
        crate::Side::Right => 1,
        crate::Side::Bottom => 2,
        crate::Side::Left => 3,
    }
}

/// The number made of a row, a column, a tile and a number of turns, each in
/// its range, gives them back on division.
proof fn lemma_tile_placement_parts(row: int, column: int, tile: int, turns: int)
    requires
        0 <= row < 16,
        0 <= column < 16,
        0 <= tile < 256,
        0 <= turns < 4,
    ensures
        (16384 * row + 1024 * column + 4 * tile + turns) / 1024 == 16 * row + column,
        (16384 * row + 1024 * column + 4 * tile + turns) / 16384 == row,
        (16384 * row + 1024 * column + 4 * tile + turns) / 4 == 4096 * row + 256 * column + tile,
        (16384 * row + 1024 * column + 4 * tile + turns) % 4 == turns,
        (4096 * row + 256 * column + tile) % 256 == tile,
        (16 * row + column) % 16 == column,
{
}

} // verus!
