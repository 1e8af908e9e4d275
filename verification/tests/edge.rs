use eternity_ii::edge::{ArrayEdge, Comparison};
use eternity_ii::Color;

#[test]
fn reversed_reads_from_the_other_end() {
    let edge = ArrayEdge::from_byte_string(b"abc");
    assert_eq!(edge.reversed(), ArrayEdge::from_byte_string(b"cba"));
    assert_eq!(edge.reversed().to_string(), "cba");
    let empty: ArrayEdge<0> = ArrayEdge::new([]);
    assert_eq!(empty.reversed(), empty);
}

#[test]
fn reversing_twice_gives_the_edge_back() {
    for letters in [b"aaaa", b"abcd", b"wvut", b"jaar", b"abba"] {
        let edge = ArrayEdge::from_byte_string(letters);
        assert_eq!(edge.reversed().reversed(), edge);
    }
}

#[test]
fn flip_eq_is_equality_with_the_reversed_edge() {
    let edges = [
        ArrayEdge::from_byte_string(b"abc"),
        ArrayEdge::from_byte_string(b"cba"),
        ArrayEdge::from_byte_string(b"aba"),
        ArrayEdge::from_byte_string(b"abb"),
        ArrayEdge::from_byte_string(b"www"),
    ];
    for a in edges {
        for b in edges {
            assert_eq!(a.flip_eq(&b), a == b.reversed());
        }
    }
    assert!(edges[0].flip_eq(&edges[1]));
    assert!(!edges[0].flip_eq(&edges[0]));
    assert!(edges[2].flip_eq(&edges[2]));
}

#[test]
fn edges_hold_their_colors_in_order() {
    let mut edge = ArrayEdge::new([Color::J, Color::A, Color::R]);
    assert_eq!(edge.iter(), vec![Color::J, Color::A, Color::R]);
    assert_eq!(edge.get(0), Color::J);
    assert_eq!(edge.get(2), Color::R);
    assert_eq!(edge.to_string(), "jar");
    edge.set(1, Color::W);
    assert_eq!(edge, ArrayEdge::from_byte_string(b"jwr"));
    assert_eq!(
        ArrayEdge::<3>::default(),
        ArrayEdge::from_byte_string(b"aaa")
    );
    assert_eq!(
        ArrayEdge::<2>::filled(Color::K),
        ArrayEdge::from_byte_string(b"kk")
    );
}

#[test]
fn edges_are_ordered_by_their_first_difference() {
    let ab = ArrayEdge::from_byte_string(b"ab");
    let ac = ArrayEdge::from_byte_string(b"ac");
    let ba = ArrayEdge::from_byte_string(b"ba");
    assert_eq!(ab.compare(&ac), Comparison::Less);
    assert_eq!(ac.compare(&ab), Comparison::Greater);
    assert_eq!(ac.compare(&ba), Comparison::Less);
    assert_eq!(ba.compare(&ba), Comparison::Equal);
    assert!(ab < ac && ac < ba);
    assert!(ab != ac);
    assert!(ab == ArrayEdge::new([Color::A, Color::B]));
}
