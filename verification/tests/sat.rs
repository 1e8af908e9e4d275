use std::collections::HashSet;

use eternity_ii::report::Table;
use eternity_ii::sat::{BinaryClause, Clauses, Literal, LongClause, Variable, VariableKind};
use eternity_ii::{hints, Color, RotatedTile, Rotation, Tile, U4};

#[test]
fn variable_encoding_is_unique_and_round_trips() {
    let mut variables = HashSet::new();
    for x in 0..16 {
        let x = U4::new_masked(x);
        for y in 0..16 {
            let y = U4::new_masked(y);
            for tile in Tile::values() {
                for rotation in Rotation::iter() {
                    let rotated_tile = RotatedTile { tile, rotation };
                    let kind = VariableKind::TilePlacement { x, y, rotated_tile };
                    let variable = Variable::for_tile_placement(x, y, rotated_tile);
                    assert_eq!(variable.kind(), kind);
                    variables.insert(variable);
                }
            }
            for color in Color::iter() {
                if color != Color::EXTERIOR {
                    if x < U4::new_masked(15) {
                        let kind = VariableKind::RightEdgeColor { x, y, color };
                        let variable = Variable::for_right_edge_color(x, y, color);
                        assert_eq!(variable.kind(), kind);
                        variables.insert(variable);
                    }
                    if y < U4::new_masked(15) {
                        let kind = VariableKind::BottomEdgeColor { x, y, color };
                        let variable = Variable::for_bottom_edge_color(x, y, color);
                        assert_eq!(variable.kind(), kind);
                        variables.insert(variable);
                    }
                }
            }
        }
    }
    assert_eq!(Variable::COUNT, variables.len());
}

#[test]
fn variables_are_numbered_kind_by_kind() {
    let zero = U4::new_masked(0);
    let last = U4::new_masked(15);
    let before_last = U4::new(14).unwrap();
    assert_eq!(
        Variable::for_tile_placement(zero, zero, RotatedTile::zero()),
        Variable(Variable::TILE_PLACEMENT_BASE)
    );
    assert_eq!(
        Variable::for_tile_placement(last, last, RotatedTile::maximum()),
        Variable(Variable::TILE_PLACEMENT_COUNT)
    );
    assert_eq!(
        Variable::for_tile_placement(
            U4::new_masked(3),
            U4::new_masked(2),
            RotatedTile {
                tile: Tile::from_primitive(5),
                rotation: Rotation::HalfTurn
            }
        ),
        Variable(16384 * 2 + 1024 * 3 + 4 * 5 + 2 + 1)
    );
    assert_eq!(
        Variable::for_right_edge_color(zero, zero, Color::B),
        Variable(Variable::RIGHT_EDGE_COLOR_BASE)
    );
    assert_eq!(
        Variable::for_right_edge_color(before_last, last, Color::W),
        Variable(Variable::RIGHT_EDGE_COLOR_BASE + Variable::RIGHT_EDGE_COLOR_COUNT - 1)
    );
    assert_eq!(
        Variable::for_bottom_edge_color(zero, zero, Color::B),
        Variable(Variable::BOTTOM_EDGE_COLOR_BASE)
    );
    assert_eq!(
        Variable::for_bottom_edge_color(last, before_last, Color::W),
        Variable(Variable::COUNT)
    );
    assert_eq!(
        Variable::BOTTOM_EDGE_COLOR_BASE + Variable::BOTTOM_EDGE_COLOR_COUNT - 1,
        Variable::COUNT
    );
}

#[test]
fn numbers_of_four_bits_go_up_to_fifteen() {
    assert_eq!(U4::new(15).map(U4::to_primitive), Some(15));
    assert_eq!(U4::new(16), None);
    assert_eq!(U4::new_masked(16).to_primitive(), 0);
    assert_eq!(U4::new_masked(255).to_primitive(), 15);
    assert!(U4::new_masked(3) < U4::new_masked(12));
}

#[test]
fn the_clue_tiles_have_their_places() {
    let place = |x: u8, y: u8, tile: u8, rotation: Rotation| {
        (
            U4::new_masked(x),
            U4::new_masked(y),
            RotatedTile {
                tile: Tile::from_primitive(tile),
                rotation,
            },
        )
    };
    assert_eq!(
        hints(),
        vec![
            place(7, 8, 135, Rotation::Identity),
            place(2, 2, 76, Rotation::Identity),
            place(13, 2, 179, Rotation::QuarterTurnLeft),
            place(2, 13, 211, Rotation::HalfTurn),
            place(13, 13, 125, Rotation::QuarterTurnRight),
        ]
    );
}

#[test]
fn literals_carry_the_sign() {
    assert_eq!(Literal::positive(Variable(17)), Literal(17));
    assert_eq!(Literal::negative(Variable(17)), Literal(-17));
    assert_eq!(Literal::negative(Variable(0)), Literal(0));
}

fn written_binary(clause: &BinaryClause) -> String {
    let mut text = String::new();
    clause.print_dimacs_fragment(&mut text);
    text
}

fn written_long(clause: &LongClause) -> String {
    let mut text = String::new();
    clause.print_dimacs_fragment(&mut text);
    text
}

fn written(clauses: &Clauses) -> String {
    let mut text = String::new();
    clauses.print_dimacs_fragment(&mut text);
    text
}

#[test]
fn clauses_are_written_one_to_a_line() {
    assert_eq!(
        written_binary(&BinaryClause::new(Literal(-3), Literal(120))),
        "-3 120 0\n"
    );
    assert_eq!(
        written_long(&LongClause::new(vec![Literal(1), Literal(-20), Literal(300)])),
        "1 -20 300 0\n"
    );
    assert_eq!(written_long(&LongClause::new(vec![Literal(7)])), "7 0\n");
    assert_eq!(written_long(&LongClause::new(vec![])), " 0\n");
    assert_eq!(
        written_long(&LongClause::new(vec![
            Literal(0),
            Literal(isize::MIN),
            Literal(isize::MAX)
        ])),
        format!("0 {} {} 0\n", isize::MIN, isize::MAX)
    );
    let mut clauses = Clauses::new();
    assert_eq!(clauses.len(), 0);
    clauses.push_unit(Literal(5));
    clauses.push_binary(Literal(-1), Literal(-2));
    clauses.push_long(vec![Literal(1), Literal(2), Literal(3)]);
    clauses.push_binary(Literal(9), Literal(-9));
    assert_eq!(clauses.len(), 4);
    assert_eq!(written(&clauses), "-1 -2 0\n9 -9 0\n5 0\n1 2 3 0\n");
    assert_eq!(written(&Clauses::default()), "");
    let mut text = "p cnf 9 4\n".to_string();
    clauses.print_dimacs_fragment(&mut text);
    assert_eq!(text, "p cnf 9 4\n-1 -2 0\n9 -9 0\n5 0\n1 2 3 0\n");
}

#[test]
fn at_most_one_pairs_each_variable_with_those_two_places_before() {
    let variables = [Variable(1), Variable(2), Variable(3), Variable(4)];
    let mut clauses = Clauses::new();
    clauses.emit_at_most_one_of(&variables);
    assert_eq!(written(&clauses), "-3 -1 0\n-4 -1 0\n-4 -2 0\n");
    let mut single = Clauses::new();
    single.emit_at_most_one_of(&variables[..1]);
    assert_eq!(single.len(), 0);
    let mut pair = Clauses::new();
    pair.emit_at_most_one_of(&variables[..2]);
    assert_eq!(pair.len(), 0);
}

#[test]
fn at_least_one_is_one_clause_of_all() {
    let variables = [Variable(4), Variable(5), Variable(6)];
    let mut clauses = Clauses::new();
    clauses.emit_at_least_one_of(&variables);
    clauses.emit_at_least_one_of(&[]);
    assert_eq!(clauses.len(), 2);
    assert_eq!(written(&clauses), "4 5 6 0\n 0\n");
}

#[test]
fn tables_keep_their_lines_in_order() {
    let mut table = Table::default();
    assert!(table.rows().is_empty());
    table.push("1x1 corner mosaics", 4, "".to_string());
    table.push_hr();
    table.push("2x1 edge mosaics", 2548, "ratio 1.0000".to_string());
    let rows = table.rows();
    assert_eq!(rows.len(), 3);
    assert_eq!(rows[0].title, "1x1 corner mosaics");
    assert_eq!(rows[0].count, Some(4));
    assert_eq!(rows[0].notes, "");
    assert_eq!(rows[1].title, "----");
    assert_eq!(rows[1].count, None);
    assert_eq!(rows[1].notes, "");
    assert_eq!(rows[2].title, "2x1 edge mosaics");
    assert_eq!(rows[2].count, Some(2548));
    assert_eq!(rows[2].notes, "ratio 1.0000");
    assert!(Table::new().rows().is_empty());
}

#[test]
fn variables_are_their_numbers() {
    assert_eq!(Variable::from(17), Variable(17));
    assert_eq!(usize::from(Variable(17)), 17);
}
