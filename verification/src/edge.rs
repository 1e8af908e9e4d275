use crate::Color;
use vstd::prelude::*;

verus! {

/// The colors along one side of a mosaic that is `N` cells long there.
#[derive(Clone, Copy, Debug, Eq, PartialOrd, Ord, Hash)]
pub struct ArrayEdge<const N: usize>(pub [Color; N]);

/// How one edge stands to another in the order of edges.
#[derive(Clone, Copy, Debug, PartialEq, Eq, Structural)]
pub enum Comparison {
    Less,
    Equal,
    Greater,
}

/// `a` and `b` hold the same colors before position `k` and different ones at
/// `k`.
pub open spec fn differ_first_at(a: Seq<Color>, b: Seq<Color>, k: int) -> bool {
    &&& 0 <= k < a.len()
    &&& k < b.len()
    &&& a[k] != b[k]
    &&& forall|j: int| 0 <= j < k ==> a[j] == b[j]
}

/// The order of edges of one length: by the first color in which they differ,
/// colors taken in the order of the alphabet.
pub open spec fn edge_less(a: Seq<Color>, b: Seq<Color>) -> bool {
    exists|k: int| #[trigger]
        differ_first_at(a, b, k) && a[k].spec_to_primitive() < b[k].spec_to_primitive()
}

/// No edge comes before itself, and of two edges at most one comes before the
/// other.
pub proof fn lemma_edge_less_asymmetric(a: Seq<Color>, b: Seq<Color>)
    requires
        edge_less(a, b),
    ensures
        a != b,
        !edge_less(b, a),
{
    let k = choose|k: int| #[trigger]
        differ_first_at(a, b, k) && a[k].spec_to_primitive() < b[k].spec_to_primitive();
    if edge_less(b, a) {
        let m = choose|m: int| #[trigger]
            differ_first_at(b, a, m) && b[m].spec_to_primitive() < a[m].spec_to_primitive();
        assert(m == k);
    }
}

/// The order of edges is transitive.
pub proof fn lemma_edge_less_transitive(a: Seq<Color>, b: Seq<Color>, c: Seq<Color>)
    requires
        edge_less(a, b),
        edge_less(b, c),
    ensures
        edge_less(a, c),
{
    let k = choose|k: int| #[trigger]
        differ_first_at(a, b, k) && a[k].spec_to_primitive() < b[k].spec_to_primitive();
    let m = choose|m: int| #[trigger]
        differ_first_at(b, c, m) && b[m].spec_to_primitive() < c[m].spec_to_primitive();
    let n = if k <= m {
        k
    } else {
        m
    };
    assert(differ_first_at(a, c, n));
}

impl<const N: usize> ArrayEdge<N> {
    /// The colors of the edge, in order.
    pub open spec fn view(&self) -> Seq<Color> {
        self.0@
    }

    /// Two edges that hold the same colors are the same edge.
    pub proof fn lemma_view_determines(self, other: ArrayEdge<N>)
        requires
            self@ == other@,
        ensures
            self == other,
    {
        assert(self.0 =~= other.0);
    }

    /// Reading an edge from the other end, and what comes of it from the
    /// other end again, gives the edge back.
    pub proof fn lemma_reversed_twice(self, once: ArrayEdge<N>, twice: ArrayEdge<N>)
        requires
            once@ == self@.reverse(),
            twice@ == once@.reverse(),
        ensures
            twice == self,
    {
        assert(twice@ =~= self@);
        twice.lemma_view_determines(self);
    }

    /// An edge is flip-equal to another exactly if it is the other read from
    /// the other end.
    pub proof fn lemma_flip_eq_is_equality_with_reversed(self, rhs: ArrayEdge<N>, reversed: ArrayEdge<N>)
        requires
            reversed@ == rhs@.reverse(),
        ensures
            (self@ == rhs@.reverse()) == (self == reversed),
    {
        if self@ == rhs@.reverse() {
            self.lemma_view_determines(reversed);
        }
    }

    /// The letters of the edge's colors, in order.
    pub open spec fn spec_letters(self) -> Seq<char> {
        Seq::new(N as nat, |i: int| self@[i].spec_to_byte_char() as char)
    }

    /// The edge that shows `color` everywhere.
    pub fn filled(color: Color) -> (edge: Self)
        ensures
            edge@ == Seq::new(N as nat, |i: int| color),
    {
        let mut edge = ArrayEdge([color;N]);
        let mut index: usize = 0;
        while index < N
            invariant
                index <= N,
                edge@.len() == N,
                forall|i: int| 0 <= i < index ==> #[trigger] edge@[i] == color,
            decreases N - index,
        {
            edge.0[index] = color;
            index = index + 1;
        }
        assert(edge@ =~= Seq::new(N as nat, |i: int| color));
        edge
    }

    pub fn new(colors: [Color; N]) -> (edge: Self)
        ensures
            edge@ == colors@,
    {
        ArrayEdge(colors)
    }

    /// The edge whose colors are written as the letters `colors`, each of
    /// which has to be one of `a` to `w`.
    pub fn from_byte_string(colors: &[u8; N]) -> (edge: Self)
        requires
            forall|i: int| 0 <= i < N ==> 97 <= #[trigger] colors@[i] <= 119,
        ensures
            forall|i: int|
                0 <= i < N ==> Some(#[trigger] edge@[i]) == Color::spec_from_byte_char(colors@[i]),
    {
        let mut result = ArrayEdge::filled(Color::A);
        let mut index: usize = 0;
        while index < N
            invariant
                index <= N,
                result@.len() == N,
                forall|i: int| 0 <= i < N ==> 97 <= #[trigger] colors@[i] <= 119,
                forall|i: int|
                    0 <= i < index ==> Some(#[trigger] result@[i]) == Color::spec_from_byte_char(
                        colors@[i],
                    ),
            decreases N - index,
        {
            let color = Color::from_byte_char(colors[index]);
            result.0[index] = color.unwrap();
            index = index + 1;
        }
        result
    }

    /// The color at position `index`.
    pub fn get(&self, index: usize) -> (color: Color)
        requires
            index < N,
        ensures
            color == self@[index as int],
    {
        self.0[index]
    }

    /// Puts `color` at position `index`.
    pub fn set(&mut self, index: usize, color: Color)
        requires
            index < N,
        ensures
            final(self)@ == old(self)@.update(index as int, color),
    {
        self.0[index] = color;
    }

    /// The same colors, read from the other end.
    pub fn reversed(&self) -> (edge: Self)
        ensures
            edge@ == self@.reverse(),
    {
        let mut result = ArrayEdge::filled(Color::A);
        let mut index: usize = 0;
        while index < N
            invariant
                index <= N,
                result@.len() == N,
                forall|i: int| 0 <= i < index ==> #[trigger] result@[i] == self@[N - 1 - i],
            decreases N - index,
        {
            result.0[index] = self.0[N - 1 - index];
            index = index + 1;
        }
        assert(result@ =~= self@.reverse());
        result
    }

    /// Whether this edge holds the colors of `rhs` read from the other end.
    pub fn flip_eq(&self, rhs: &Self) -> (equal: bool)
        ensures
            equal == (self@ == rhs@.reverse()),
    {
        let mut index: usize = 0;
        while index < N
            invariant
                index <= N,
                forall|i: int| 0 <= i < index ==> #[trigger] self@[i] == rhs@[N - 1 - i],
            decreases N - index,
        {
            if self.0[index] != rhs.0[N - 1 - index] {
                assert(rhs@.reverse()[index as int] == rhs@[N - 1 - index]);
                return false;
            }
            index = index + 1;
        }
        assert(self@ =~= rhs@.reverse());
        true
    }

    /// The colors of the edge, in order.
    pub fn iter(&self) -> (colors: Vec<Color>)
        ensures
            colors@ == self@,
    {
        let mut colors: Vec<Color> = Vec::new();
        let mut index: usize = 0;
        while index < N
            invariant
                index <= N,
                colors@.len() == index,
                forall|i: int| 0 <= i < index ==> #[trigger] colors@[i] == self@[i],
            decreases N - index,
        {
            colors.push(self.0[index]);
            index = index + 1;
        }
        assert(colors@ =~= self@);
        colors
    }

    /// Where this edge stands to `other` in the order of edges.
    pub fn compare(&self, other: &Self) -> (comparison: Comparison)
        ensures
            comparison == Comparison::Less <==> edge_less(self@, other@),
            comparison == Comparison::Equal <==> self == other,
            comparison == Comparison::Greater <==> edge_less(other@, self@),
    {
        let mut index: usize = 0;
        while index < N
            invariant
                index <= N,
                forall|i: int| 0 <= i < index ==> #[trigger] self@[i] == other@[i],
            decreases N - index,
        {
            let mine = self.0[index].to_primitive();
            let theirs = other.0[index].to_primitive();
            if mine < theirs {
                proof {
                    assert(differ_first_at(self@, other@, index as int));
                    lemma_edge_less_asymmetric(self@, other@);
                }
                return Comparison::Less;
            }
            if theirs < mine {
                proof {
                    assert(differ_first_at(other@, self@, index as int));
                    lemma_edge_less_asymmetric(other@, self@);
                }
                return Comparison::Greater;
            }
            index = index + 1;
        }
        proof {
            assert(self@ =~= other@);
            self.lemma_view_determines(*other);
            if edge_less(self@, other@) {
                lemma_edge_less_asymmetric(self@, other@);
            }
            if edge_less(other@, self@) {
                lemma_edge_less_asymmetric(other@, self@);
            }
        }
        Comparison::Equal
    }

    /// The letters of the edge's colors, in order.
    pub fn to_string(&self) -> (letters: String)
        ensures
            letters@ == self.spec_letters(),
    {
        let mut letters = String::new();
        let mut index: usize = 0;
        while index < N
            invariant
                index <= N,
                letters@.len() == index,
                forall|i: int| 0 <= i < index ==> #[trigger] letters@[i] == self.spec_letters()[i],
            decreases N - index,
        {
            push_char(&mut letters, self.0[index].to_char());
            index = index + 1;
        }
        assert(letters@ =~= self.spec_letters());
        letters
    }
}

/// `String::push` of std: the string afterwards holds the characters it held,
/// followed by `c`.
#[verifier::external_body]
pub(crate) fn push_char(s: &mut String, c: char)
    ensures
        final(s)@ == old(s)@.push(c),
{
    s.push(c);
}

impl<const N: usize> PartialEq for ArrayEdge<N> {
    fn eq(&self, other: &Self) -> (equal: bool) {
        let mut index: usize = 0;
        while index < N
            invariant
                index <= N,
                forall|i: int| 0 <= i < index ==> #[trigger] self@[i] == other@[i],
            decreases N - index,
        {
            if self.0[index] != other.0[index] {
                return false;
            }
            index = index + 1;
        }
        proof {
            assert(self@ =~= other@);
            self.lemma_view_determines(*other);
        }
        true
    }
}

impl<const N: usize> vstd::std_specs::cmp::PartialEqSpecImpl for ArrayEdge<N> {
    open spec fn obeys_eq_spec() -> bool {
        true
    }

    open spec fn eq_spec(&self, other: &Self) -> bool {
        *self == *other
    }
}

impl<const N: usize> Default for ArrayEdge<N> {
    /// The edge that shows the exterior color everywhere.
    fn default() -> (edge: Self)
        ensures
            edge@ == Seq::new(N as nat, |i: int| Color::A),
    {
        ArrayEdge::filled(Color::A)
    }
}

} // verus!
