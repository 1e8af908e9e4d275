use crate::edge::{edge_less, ArrayEdge};
use crate::mosaic::{
    edge, grid, lemma_rotated_edge_follows_rotation, lemma_rotated_edge_is_edge_of_view,
    lemma_same_tiles_is_same_grid, rotated_edge,
    tiles_equal,
    RotatedSquareMosaic, SquareMosaic,
};
use crate::set::index::{
    filed_under, lemma_filed_under_contains, lemma_filed_under_in_order, shifted_entries,
    EdgeIndex, RotatedIndex,
};
use crate::{Color, RotatedTile, Rotation, Side};
use vstd::prelude::*;

verus! {

/// A slot of a set of square mosaics together with a rotation.
pub type RotatedSquareMosaicIndex = RotatedIndex<Rotation>;

/// A collection of square mosaics of one size. Each mosaic gets the next free
/// slot when it comes in, and is then found by the colors along any of its
/// sides, in any of its four rotations.
#[derive(Clone, Debug)]
pub struct SquareMosaicSet<const N: usize, M: SquareMosaic<N>> {
    mosaics: Vec<M>,
    index_by_rotated_right_edge: EdgeIndex<N, Rotation>,
}

/// The slot and rotation that stand at position `k` when every slot is
/// listed in each of its four rotations, slot by slot.
pub open spec fn rotated_slot(k: int) -> RotatedIndex<Rotation> {
    RotatedIndex { index: (k / 4) as usize, rotation: Rotation::from_turns(k % 4) }
}

/// The colors along the right side of the mosaic in slot `slot`, seen after
/// `rotation`.
pub open spec fn rotated_right_edge<const N: usize, M: SquareMosaic<N>>(
    mosaics: Seq<M>,
    slot: int,
    rotation: Rotation,
) -> Seq<Color> {
    rotated_edge(&mosaics[slot], rotation, Side::Right)
}

/// The right edges of all mosaics in all rotations, in the order of
/// `rotated_slot`.
pub open spec fn all_right_edges<const N: usize, M: SquareMosaic<N>>(mosaics: Seq<M>) -> Seq<
    Seq<Color>,
> {
    Seq::new(
        4 * mosaics.len(),
        |k: int| rotated_right_edge(mosaics, k / 4, Rotation::from_turns(k % 4)),
    )
}

/// All slots below `count` in all rotations, in the order of `rotated_slot`.
pub open spec fn all_rotated_slots(count: nat) -> Seq<RotatedIndex<Rotation>> {
    Seq::new(4 * count, |k: int| rotated_slot(k))
}

/// The slots and rotations whose right edge is `edge`, by slot and then by
/// rotation.
pub open spec fn slots_with_right_edge<const N: usize, M: SquareMosaic<N>>(
    mosaics: Seq<M>,
    edge: Seq<Color>,
) -> Seq<RotatedIndex<Rotation>> {
    filed_under(all_right_edges(mosaics), all_rotated_slots(mosaics.len()), edge)
}

/// The slots whose mosaic shows `edge` on `side`, each with the rotation in
/// which it does: those whose right edge is `edge`, turned on so that what
/// was on the right is on `side`.
pub open spec fn spec_query<const N: usize, M: SquareMosaic<N>>(
    mosaics: Seq<M>,
    side: Side,
    edge: Seq<Color>,
) -> Seq<RotatedIndex<Rotation>> {
    let found = slots_with_right_edge(mosaics, edge);
    Seq::new(
        found.len(),
        |i: int|
            RotatedIndex {
                index: found[i].index,
                rotation: found[i].rotation.plus(side.spec_rotation_from_right()),
            },
    )
}

/// `views` are the mosaics of the slots `slots`, each seen after the rotation
/// that stands with its slot, and each with the number of its slot.
pub open spec fn views_match<const N: usize, M: SquareMosaic<N>>(
    views: Seq<(usize, RotatedSquareMosaic<'_, N, M>)>,
    mosaics: Seq<M>,
    slots: Seq<RotatedIndex<Rotation>>,
) -> bool {
    &&& views.len() == slots.len()
    &&& forall|i: int|
        0 <= i < views.len() ==> {
            &&& (#[trigger] views[i]).0 == slots[i].index
            &&& views[i].0 < mosaics.len()
            &&& *views[i].1.mosaic == mosaics[slots[i].index as int]
            &&& views[i].1.rotation == slots[i].rotation
        }
}

/// The mosaics of the slots `slots`, each seen after the rotation that
/// stands with its slot.
pub open spec fn spec_views<'a, const N: usize, M: SquareMosaic<N>>(
    mosaics: Seq<M>,
    slots: Seq<RotatedIndex<Rotation>>,
) -> Seq<RotatedSquareMosaic<'a, N, M>> {
    Seq::new(
        slots.len(),
        |i: int|
            RotatedSquareMosaic { mosaic: &mosaics[slots[i].index as int], rotation: slots[i].rotation },
    )
}

/// Numbered views that match a list of slots are the views of these slots.
pub proof fn lemma_views_match<'a, const N: usize, M: SquareMosaic<N>>(
    views: Seq<(usize, RotatedSquareMosaic<'a, N, M>)>,
    mosaics: Seq<M>,
    slots: Seq<RotatedIndex<Rotation>>,
)
    requires
        views_match(views, mosaics, slots),
    ensures
        crate::set::join::views_of(views) == spec_views::<N, M>(mosaics, slots),
{
    assert(crate::set::join::views_of(views) =~= spec_views::<N, M>(mosaics, slots));
}

/// The grid that the mosaic in slot `k / 4` shows after `k % 4` quarter turns
/// to the left.
#[verifier::opaque]
pub open spec fn orbit_member<const N: usize, M: SquareMosaic<N>>(mosaics: Seq<M>, k: int) -> Seq<
    Seq<RotatedTile>,
> {
    grid(&RotatedSquareMosaic { mosaic: &mosaics[k / 4], rotation: Rotation::from_turns(k % 4) })
}

/// No two of the mosaics, each seen in each of its four rotations, show the
/// same grid.
pub open spec fn orbits_distinct<const N: usize, M: SquareMosaic<N>>(mosaics: Seq<M>) -> bool {
    forall|k1: int, k2: int|
        0 <= k1 < k2 < 4 * mosaics.len() ==> #[trigger] orbit_member(mosaics, k1)
            != #[trigger] orbit_member(mosaics, k2)
}

/// The grids of the first `k` of the mosaics in their rotations.
pub open spec fn orbit_upto<const N: usize, M: SquareMosaic<N>>(mosaics: Seq<M>, k: nat) -> Set<
    Seq<Seq<RotatedTile>>,
>
    decreases k,
{
    if k == 0 {
        Set::empty()
    } else {
        orbit_upto(mosaics, (k - 1) as nat).insert(orbit_member(mosaics, k - 1))
    }
}

/// The grids that the mosaics show in their four rotations.
pub open spec fn orbit<const N: usize, M: SquareMosaic<N>>(mosaics: Seq<M>) -> Set<
    Seq<Seq<RotatedTile>>,
> {
    orbit_upto(mosaics, 4 * mosaics.len())
}

proof fn lemma_orbit_upto<const N: usize, M: SquareMosaic<N>>(mosaics: Seq<M>, k: nat)
    requires
        orbits_distinct(mosaics),
        k <= 4 * mosaics.len(),
    ensures
        orbit_upto(mosaics, k).finite(),
        orbit_upto(mosaics, k).len() == k,
        forall|g: Seq<Seq<RotatedTile>>|
            orbit_upto(mosaics, k).contains(g) ==> exists|j: int|
                0 <= j < k && #[trigger] orbit_member(mosaics, j) == g,
    decreases k,
{
    if k > 0 {
        let earlier = orbit_upto(mosaics, (k - 1) as nat);
        let member = orbit_member(mosaics, k - 1);
        lemma_orbit_upto(mosaics, (k - 1) as nat);
        if earlier.contains(member) {
            let j = choose|j: int| 0 <= j < k - 1 && #[trigger] orbit_member(mosaics, j) == member;
            assert(orbit_member(mosaics, j) != orbit_member(mosaics, k - 1));
        }
        assert forall|g: Seq<Seq<RotatedTile>>| orbit_upto(mosaics, k).contains(g) implies exists|
            j: int,
        |
            0 <= j < k && #[trigger] orbit_member(mosaics, j) == g by {
            if g == member {
                assert(orbit_member(mosaics, k - 1) == g);
            } else {
                assert(earlier.contains(g));
                let j = choose|j: int| 0 <= j < k - 1 && #[trigger] orbit_member(mosaics, j) == g;
                assert(0 <= j < k && orbit_member(mosaics, j) == g);
            }
        }
    }
}

/// Where no two mosaics in their rotations show the same grid, the grids
/// shown are four times as many as the mosaics.
pub proof fn lemma_distinct_orbits_have_full_size<const N: usize, M: SquareMosaic<N>>(
    mosaics: Seq<M>,
)
    requires
        orbits_distinct(mosaics),
    ensures
        orbit(mosaics).finite(),
        orbit(mosaics).len() == 4 * mosaics.len(),
{
    lemma_orbit_upto(mosaics, 4 * mosaics.len());
}

/// The grid that the mosaic of a slot shows after the rotation that stands
/// with the slot.
pub open spec fn grid_of_slot<const N: usize, M: SquareMosaic<N>>(
    mosaics: Seq<M>,
    slot: RotatedIndex<Rotation>,
) -> Seq<Seq<RotatedTile>> {
    grid(&RotatedSquareMosaic { mosaic: &mosaics[slot.index as int], rotation: slot.rotation })
}

/// Two slots show the same grid, each after its rotation.
pub open spec fn slots_collide<const N: usize, M: SquareMosaic<N>>(
    mosaics: Seq<M>,
    first: RotatedIndex<Rotation>,
    second: RotatedIndex<Rotation>,
) -> bool {
    grid_of_slot(mosaics, first) == grid_of_slot(mosaics, second)
}

proof fn lemma_orbit_member_is_grid_of_slot<const N: usize, M: SquareMosaic<N>>(
    mosaics: Seq<M>,
    k: int,
)
    requires
        0 <= k < 4 * mosaics.len(),
        mosaics.len() <= usize::MAX,
    ensures
        orbit_member(mosaics, k) == grid_of_slot(mosaics, rotated_slot(k)),
{
    reveal(orbit_member);
}

/// Slots that show the same grid show the same right edge.
proof fn lemma_colliding_slots_share_their_right_edge<const N: usize, M: SquareMosaic<N>>(
    mosaics: Seq<M>,
    first: RotatedIndex<Rotation>,
    second: RotatedIndex<Rotation>,
)
    requires
        slots_collide(mosaics, first, second),
    ensures
        rotated_edge(&mosaics[first.index as int], first.rotation, Side::Right) == rotated_edge(
            &mosaics[second.index as int],
            second.rotation,
            Side::Right,
        ),
{
    let a = RotatedSquareMosaic { mosaic: &mosaics[first.index as int], rotation: first.rotation };
    let b = RotatedSquareMosaic { mosaic: &mosaics[second.index as int], rotation: second.rotation };
    lemma_same_tiles_is_same_grid(&a, &b);
    crate::mosaic::lemma_same_tiles_show_same_edges(&a, &b);
    assert(crate::mosaic::spec_vertical_edge(&a, crate::rectangular::VerticalSide::Right)
        == crate::mosaic::spec_vertical_edge(&b, crate::rectangular::VerticalSide::Right));
    lemma_rotated_edge_is_edge_of_view(&mosaics[first.index as int], first.rotation, Side::Right);
    lemma_rotated_edge_is_edge_of_view(&mosaics[second.index as int], second.rotation, Side::Right);
}

/// Where no two of the mosaics in their rotations show the same grid, slots
/// that show the same grid are the same slot in the same rotation.
pub proof fn lemma_distinct_orbits_tell_slots_apart<const N: usize, M: SquareMosaic<N>>(
    mosaics: Seq<M>,
    first: RotatedIndex<Rotation>,
    second: RotatedIndex<Rotation>,
)
    requires
        orbits_distinct(mosaics),
        mosaics.len() <= usize::MAX,
        first.index < mosaics.len(),
        second.index < mosaics.len(),
        slots_collide(mosaics, first, second),
    ensures
        first == second,
{
    let k1 = 4 * first.index + first.rotation.spec_to_primitive();
    let k2 = 4 * second.index + second.rotation.spec_to_primitive();
    lemma_orbit_member_is_grid_of_slot(mosaics, k1);
    lemma_orbit_member_is_grid_of_slot(mosaics, k2);
    assert(rotated_slot(k1) == first);
    assert(rotated_slot(k2) == second);
    if k1 < k2 {
        assert(orbit_member(mosaics, k1) != orbit_member(mosaics, k2));
    } else if k2 < k1 {
        assert(orbit_member(mosaics, k2) != orbit_member(mosaics, k1));
    }
}

/// A query finds no slot twice in one rotation.
pub proof fn lemma_query_finds_each_slot_once<const N: usize, M: SquareMosaic<N>>(
    mosaics: Seq<M>,
    side: Side,
    edge: Seq<Color>,
    p: int,
    q: int,
)
    requires
        mosaics.len() <= usize::MAX,
        0 <= p < q < spec_query(mosaics, side, edge).len(),
    ensures
        spec_query(mosaics, side, edge)[p] != spec_query(mosaics, side, edge)[q],
{
    let keys = all_right_edges(mosaics);
    let slots = all_rotated_slots(mosaics.len());
    let found = slots_with_right_edge(mosaics, edge);
    let (k1, k2) = lemma_filed_under_in_order(keys, slots, edge, p, q);
    assert(slots[k1] == rotated_slot(k1));
    assert(slots[k2] == rotated_slot(k2));
    assert(found[p] != found[q]);
}

/// What a query finds was filed under the edge asked for.
pub proof fn lemma_query_is_sound<const N: usize, M: SquareMosaic<N>>(
    mosaics: Seq<M>,
    side: Side,
    edge: Seq<Color>,
    p: int,
)
    requires
        mosaics.len() <= usize::MAX,
        0 <= p < spec_query(mosaics, side, edge).len(),
    ensures
        spec_query(mosaics, side, edge)[p].index < mosaics.len(),
        rotated_edge(
            &mosaics[spec_query(mosaics, side, edge)[p].index as int],
            spec_query(mosaics, side, edge)[p].rotation,
            side,
        ) == edge,
{
    let turn = side.spec_rotation_from_right();
    let keys = all_right_edges(mosaics);
    let slots = all_rotated_slots(mosaics.len());
    let found = slots_with_right_edge(mosaics, edge);
    assert(found.contains(found[p]));
    lemma_filed_under_contains(keys, slots, edge, found[p]);
    let k = choose|k: int| 0 <= k < keys.len() && keys[k] == edge && #[trigger] slots[k] == found[p];
    assert(found[p].index == k / 4);
    assert(found[p].rotation == Rotation::from_turns(k % 4));
    lemma_rotated_edge_follows_rotation(&mosaics[k / 4], found[p].rotation, turn, Side::Right);
    assert(Side::Right.spec_transform(turn) == side);
}

/// A query finds every slot and rotation that shows the edge asked for on
/// the side asked for.
proof fn lemma_query_is_complete<const N: usize, M: SquareMosaic<N>>(
    mosaics: Seq<M>,
    side: Side,
    edge: Seq<Color>,
    slot: usize,
    rotation: Rotation,
)
    requires
        mosaics.len() <= usize::MAX,
        slot < mosaics.len(),
        rotated_edge(&mosaics[slot as int], rotation, side) == edge,
    ensures
        spec_query(mosaics, side, edge).contains(RotatedIndex { index: slot, rotation }),
{
    let turn = side.spec_rotation_from_right();
    let keys = all_right_edges(mosaics);
    let slots = all_rotated_slots(mosaics.len());
    let found = slots_with_right_edge(mosaics, edge);
    let back = Rotation::from_turns(4 - turn.spec_to_primitive());
    let unturned = rotation.plus(back);
    crate::lemma_rotation_plus_is_associative(rotation, back, turn);
    assert(back.plus(turn) == Rotation::Identity);
    assert(unturned.plus(turn) == rotation);
    lemma_rotated_edge_follows_rotation(&mosaics[slot as int], unturned, turn, Side::Right);
    assert(Side::Right.spec_transform(turn) == side);
    let k = 4 * slot + unturned.spec_to_primitive();
    assert(k / 4 == slot && Rotation::from_turns(k % 4) == unturned);
    assert(keys[k] == edge);
    let entry = RotatedIndex { index: slot, rotation: unturned };
    assert(slots[k] == entry);
    lemma_filed_under_contains(keys, slots, edge, entry);
    let p = choose|p: int| 0 <= p < found.len() && found[p] == entry;
    assert(spec_query(mosaics, side, edge)[p] == RotatedIndex { index: slot, rotation });
}

/// A query finds a slot in a rotation exactly if the mosaic of that slot,
/// seen after that rotation, shows the edge on the side asked for.
pub proof fn lemma_query_is_exact<const N: usize, M: SquareMosaic<N>>(
    mosaics: Seq<M>,
    side: Side,
    edge: Seq<Color>,
    slot: usize,
    rotation: Rotation,
)
    requires
        mosaics.len() <= usize::MAX,
        slot < mosaics.len(),
    ensures
        spec_query(mosaics, side, edge).contains(RotatedIndex { index: slot, rotation })
            <==> rotated_edge(&mosaics[slot as int], rotation, side) == edge,
{
    let wanted = RotatedIndex { index: slot, rotation };
    if spec_query(mosaics, side, edge).contains(wanted) {
        let p = choose|p: int|
            0 <= p < spec_query(mosaics, side, edge).len() && spec_query(mosaics, side, edge)[p]
                == wanted;
        lemma_query_is_sound(mosaics, side, edge, p);
    }
    if rotated_edge(&mosaics[slot as int], rotation, side) == edge {
        lemma_query_is_complete(mosaics, side, edge, slot, rotation);
    }
}

impl<const N: usize, M: SquareMosaic<N>> SquareMosaicSet<N, M> {
    /// The mosaics of the set, by slot.
    pub closed spec fn view(&self) -> Seq<M> {
        self.mosaics@
    }

    /// The index holds, under each edge, the slots and rotations whose right
    /// edge it is.
    pub closed spec fn wf(&self) -> bool {
        &&& self.index_by_rotated_right_edge.wf()
        &&& self.index_by_rotated_right_edge.represents(
            all_right_edges(self.mosaics@),
            all_rotated_slots(self.mosaics@.len()),
        )
        &&& forall|edge: Seq<Color>, i: int|
            0 <= i < self.index_by_rotated_right_edge.stored(edge).len() ==> (
            #[trigger] self.index_by_rotated_right_edge.stored(edge)[i]).index
                < self.mosaics@.len()
    }

    /// A set holds no more mosaics than can be counted.
    pub proof fn lemma_len_fits(&self)
        ensures
            self@.len() <= usize::MAX,
    {
        assert(self.mosaics.len() == self.mosaics@.len());
    }

    /// Two sets made of the same two runs of mosaics, one run after the
    /// other, hold the same mosaics in the same slots, show the same edges
    /// and answer every query alike; and where the runs came in the other
    /// order, the set holds the same mosaics in other slots.
    pub proof fn lemma_merging_only_relabels(
        one: &Self,
        merged: &Self,
        other_way: &Self,
        first: Seq<M>,
        second: Seq<M>,
    )
        requires
            one.wf(),
            merged.wf(),
            one@ == first + second,
            merged@ == first + second,
            other_way@ == second + first,
        ensures
            merged@ == one@,
            merged.edges() == one.edges(),
            forall|side: Side, edge: Seq<Color>|
                spec_query(merged@, side, edge) == spec_query(one@, side, edge),
            other_way@.to_multiset() == one@.to_multiset(),
    {
        vstd::seq_lib::lemma_seq_union_to_multiset_commutative(first, second);
        merged.lemma_same_mosaics_same_edges(one);
    }

    /// The set without mosaics.
    pub fn new() -> (set: Self)
        ensures
            set.wf(),
            set@ == Seq::<M>::empty(),
    {
        let set = SquareMosaicSet { mosaics: Vec::new(), index_by_rotated_right_edge: EdgeIndex::new() };
        proof {
            assert(all_right_edges(set.mosaics@) =~= Seq::empty());
            assert(all_rotated_slots(set.mosaics@.len()) =~= Seq::empty());
        }
        set
    }

    /// Number of mosaics in the set.
    pub fn len(&self) -> (len: usize)
        ensures
            len == self@.len(),
    {
        self.mosaics.len()
    }

    /// The mosaics of the set, by slot.
    pub fn iter_mosaics(&self) -> (mosaics: &Vec<M>)
        ensures
            mosaics@ == self@,
    {
        &self.mosaics
    }

    /// Puts `mosaic` into the next free slot.
    pub fn insert(&mut self, mosaic: M)
        requires
            old(self).wf(),
        ensures
            final(self).wf(),
            final(self)@ == old(self)@.push(mosaic),
    {
        let index = self.mosaics.len();
        let ghost grown = self.mosaics@.push(mosaic);
        let ghost keys = all_right_edges(grown);
        let ghost slots = all_rotated_slots(grown.len());
        proof {
            assert(keys.take(4 * index) =~= all_right_edges(self.mosaics@));
            assert(slots.take(4 * index) =~= all_rotated_slots(self.mosaics@.len()));
        }
        let mut turns: u8 = 0;
        while turns < 4
            invariant
                turns <= 4,
                index == self.mosaics@.len(),
                grown == self.mosaics@.push(mosaic),
                keys == all_right_edges(grown),
                slots == all_rotated_slots(grown.len()),
                self.index_by_rotated_right_edge.wf(),
                self.index_by_rotated_right_edge.represents(
                    keys.take(4 * index + turns),
                    slots.take(4 * index + turns),
                ),
                forall|edge: Seq<Color>, i: int|
                    0 <= i < self.index_by_rotated_right_edge.stored(edge).len() ==> (
                    #[trigger] self.index_by_rotated_right_edge.stored(edge)[i]).index
                        <= self.mosaics@.len(),
            decreases 4 - turns,
        {
            let rotation = Rotation::new_masked(turns);
            let right = edge(&RotatedSquareMosaic { mosaic: &mosaic, rotation }, Side::Right);
            let entry = RotatedIndex { index, rotation };
            let ghost before = self.index_by_rotated_right_edge;
            self.index_by_rotated_right_edge.push(right, entry);
            proof {
                let k = 4 * index + turns;
                assert(k / 4 == index && k % 4 == turns);
                lemma_rotated_edge_is_edge_of_view(&grown[index as int], rotation, Side::Right);
                assert(keys[k] == right@);
                assert(slots[k] == entry);
                self.index_by_rotated_right_edge.lemma_represents_one_more(
                    &before,
                    keys.take(k),
                    slots.take(k),
                    right@,
                    entry,
                );
                assert(keys.take(k).push(right@) =~= keys.take(k + 1));
                assert(slots.take(k).push(entry) =~= slots.take(k + 1));
                assert forall|edge: Seq<Color>, i: int|
                    0 <= i < self.index_by_rotated_right_edge.stored(edge).len() implies (
                #[trigger] self.index_by_rotated_right_edge.stored(edge)[i]).index
                    <= self.mosaics@.len() by {
                    if edge == right@ {
                        if i < before.stored(edge).len() {
                            assert(before.stored(edge)[i].index <= self.mosaics@.len());
                        }
                    } else {
                        assert(before.stored(edge)[i].index <= self.mosaics@.len());
                    }
                }
            }
            turns = turns + 1;
        }
        self.mosaics.push(mosaic);
        proof {
            assert(keys.take(4 * index + 4) =~= keys);
            assert(slots.take(4 * index + 4) =~= slots);
            assert forall|edge: Seq<Color>, i: int|
                0 <= i < self.index_by_rotated_right_edge.stored(edge).len() implies (
            #[trigger] self.index_by_rotated_right_edge.stored(edge)[i]).index
                < self.mosaics@.len() by {
                assert(self.index_by_rotated_right_edge.stored(edge)[i].index <= index);
            }
        }
    }

    /// The mosaic in the slot of `i`, seen after the rotation of `i`.
    pub fn get(&self, i: RotatedSquareMosaicIndex) -> (view: RotatedSquareMosaic<'_, N, M>)
        requires
            i.index < self@.len(),
        ensures
            *view.mosaic == self@[i.index as int],
            view.rotation == i.rotation,
    {
        RotatedSquareMosaic { mosaic: &self.mosaics[i.index], rotation: i.rotation }
    }

    /// Takes over the mosaics of `other`, in their order, into the next free
    /// slots.
    pub fn extend(&mut self, other: Self)
        requires
            old(self).wf(),
            other.wf(),
        ensures
            final(self).wf(),
            final(self)@ == old(self)@ + other@,
    {
        let base = self.mosaics.len();
        let ghost before = *self;
        let SquareMosaicSet { mosaics: mut more, index_by_rotated_right_edge: more_index } = other;
        let ghost added = more@;
        self.mosaics.append(&mut more);
        let total = self.mosaics.len();
        proof {
            assert forall|j: int, i: int|
                0 <= j < more_index.buckets@.len() && 0 <= i < more_index.buckets@[j].entries@.len()
                implies (#[trigger] more_index.buckets@[j].entries@[i]).index + base
                <= usize::MAX by {
                let key = more_index.key(j);
                assert(more_index.holds_at(j, key));
                more_index.lemma_stored_at(j, key);
                assert(more_index.stored(key)[i].index < added.len());
            }
        }
        self.index_by_rotated_right_edge.append_shifted(&more_index, base);
        proof {
            let grown = before.mosaics@ + added;
            self.index_by_rotated_right_edge.lemma_represents_appended(
                &before.index_by_rotated_right_edge,
                &more_index,
                base as int,
                all_right_edges(before.mosaics@),
                all_rotated_slots(before.mosaics@.len()),
                all_right_edges(added),
                all_rotated_slots(added.len()),
            );
            assert(all_right_edges(grown) =~= all_right_edges(before.mosaics@) + all_right_edges(
                added,
            )) by {
                assert forall|k: int| 4 * base <= k < 4 * total implies all_right_edges(grown)[k]
                    == all_right_edges(added)[k - 4 * base] by {
                    assert(grown[k / 4] == added[(k - 4 * base) / 4]);
                }
            }
            assert(all_rotated_slots(grown.len()) =~= all_rotated_slots(before.mosaics@.len())
                + shifted_entries(all_rotated_slots(added.len()), base as int));
            assert forall|edge: Seq<Color>, i: int|
                0 <= i < self.index_by_rotated_right_edge.stored(edge).len() implies (
            #[trigger] self.index_by_rotated_right_edge.stored(edge)[i]).index
                < self.mosaics@.len() by {
                let own = before.index_by_rotated_right_edge.stored(edge);
                let taken = more_index.stored(edge);
                if i < own.len() {
                    assert(own[i].index < base);
                } else {
                    assert(taken[i - own.len()].index < added.len());
                }
            }
        }
    }

    /// The mosaics that show `edge` on `side`, each in the rotation in which
    /// it does and with the number of its slot, by slot.
    pub fn query(&self, side: Side, edge: &ArrayEdge<N>) -> (found: Vec<
        (usize, RotatedSquareMosaic<'_, N, M>),
    >)
        requires
            self.wf(),
        ensures
            views_match(found@, self@, spec_query(self@, side, edge@)),
    {
        let turn = side.rotation_from_right();
        let mut found: Vec<(usize, RotatedSquareMosaic<'_, N, M>)> = Vec::new();
        let ghost expected = spec_query(self@, side, edge@);
        match self.index_by_rotated_right_edge.get(edge) {
            None => {},
            Some(entries) => {
                let mut i: usize = 0;
                while i < entries.len()
                    invariant
                        i <= entries@.len(),
                        self.wf(),
                        entries@ == self.index_by_rotated_right_edge.stored(edge@),
                        entries@ == slots_with_right_edge(self@, edge@),
                        expected == spec_query(self@, side, edge@),
                        turn == side.spec_rotation_from_right(),
                        views_match(found@, self@, expected.take(i as int)),
                    decreases entries@.len() - i,
                {
                    let entry = entries[i];
                    assert(self.index_by_rotated_right_edge.stored(edge@)[i as int].index
                        < self.mosaics@.len());
                    let view = RotatedSquareMosaic {
                        mosaic: &self.mosaics[entry.index],
                        rotation: entry.rotation.plus(turn),
                    };
                    let ghost earlier = found@;
                    found.push((entry.index, view));
                    proof {
                        assert(expected.take(i + 1) =~= expected.take(i as int).push(
                            expected[i as int],
                        ));
                        assert forall|k: int| 0 <= k < found@.len() implies {
                            &&& (#[trigger] found@[k]).0 == expected.take(i + 1)[k].index
                            &&& found@[k].0 < self@.len()
                            &&& *found@[k].1.mosaic == self@[expected.take(i + 1)[k].index as int]
                            &&& found@[k].1.rotation == expected.take(i + 1)[k].rotation
                        } by {
                            if k < i {
                                assert(found@[k] == earlier[k]);
                            }
                        }
                    }
                    i = i + 1;
                }
                proof {
                    assert(expected.take(i as int) =~= expected);
                }
            },
        }
        found
    }

    /// The right edges that mosaics of the set show in some rotation, in
    /// ascending order.
    pub closed spec fn edges(&self) -> Seq<ArrayEdge<N>> {
        Seq::new(
            self.index_by_rotated_right_edge.buckets@.len(),
            |j: int| self.index_by_rotated_right_edge.buckets@[j].edge,
        )
    }

    /// The edges of a set are in ascending order, each is the right edge of
    /// some mosaic in some rotation, and none such is missing.
    pub proof fn lemma_edges(&self)
        requires
            self.wf(),
        ensures
            forall|i: int, j: int|
                0 <= i < j < self.edges().len() ==> edge_less(
                    (#[trigger] self.edges()[i])@,
                    (#[trigger] self.edges()[j])@,
                ),
            forall|j: int|
                0 <= j < self.edges().len() ==> slots_with_right_edge(
                    self@,
                    (#[trigger] self.edges()[j])@,
                ).len() > 0,
            forall|edge: Seq<Color>|
                (#[trigger] slots_with_right_edge(self@, edge)).len() > 0 ==> exists|j: int|
                    0 <= j < self.edges().len() && (#[trigger] self.edges()[j])@ == edge,
    {
        let index = self.index_by_rotated_right_edge;
        assert forall|i: int, j: int| 0 <= i < j < self.edges().len() implies edge_less(
            (#[trigger] self.edges()[i])@,
            (#[trigger] self.edges()[j])@,
        ) by {
            assert(edge_less(index.key(i), index.key(j)));
        }
        assert forall|j: int| 0 <= j < self.edges().len() implies slots_with_right_edge(
            self@,
            (#[trigger] self.edges()[j])@,
        ).len() > 0 by {
            let key = index.key(j);
            assert(index.holds_at(j, key));
            index.lemma_stored_at(j, key);
            assert(index.stored(key) == slots_with_right_edge(self@, key));
            assert(index.buckets@[j].entries@.len() > 0);
        }
        assert forall|edge: Seq<Color>|
            (#[trigger] slots_with_right_edge(self@, edge)).len() > 0 implies exists|j: int|
            0 <= j < self.edges().len() && (#[trigger] self.edges()[j])@ == edge by {
            assert(index.stored(edge) == slots_with_right_edge(self@, edge));
            let j = choose|j: int| index.holds_at(j, edge);
            assert(self.edges()[j]@ == edge);
        }
    }

    /// Sets that hold the same mosaics in the same slots show the same edges
    /// in the same order.
    pub proof fn lemma_same_mosaics_same_edges(&self, other: &Self)
        requires
            self.wf(),
            other.wf(),
            self@ == other@,
        ensures
            self.edges() == other.edges(),
    {
        self.lemma_edges();
        other.lemma_edges();
        assert forall|edge: ArrayEdge<N>| self.edges().contains(edge) <==> other.edges().contains(
            edge,
        ) by {
            if self.edges().contains(edge) {
                let j = choose|j: int| 0 <= j < self.edges().len() && self.edges()[j] == edge;
                assert(slots_with_right_edge(self@, self.edges()[j]@).len() > 0);
                let k = choose|k: int|
                    0 <= k < other.edges().len() && (#[trigger] other.edges()[k])@ == edge@;
                other.edges()[k].lemma_view_determines(edge);
            }
            if other.edges().contains(edge) {
                let j = choose|j: int| 0 <= j < other.edges().len() && other.edges()[j] == edge;
                assert(slots_with_right_edge(other@, other.edges()[j]@).len() > 0);
                let k = choose|k: int|
                    0 <= k < self.edges().len() && (#[trigger] self.edges()[k])@ == edge@;
                self.edges()[k].lemma_view_determines(edge);
            }
        }
        crate::set::index::lemma_ascending_edges_are_determined(self.edges(), other.edges());
    }

    /// Number of different right edges that mosaics of the set show.
    pub fn bucket_count(&self) -> (count: usize)
        ensures
            count == self.edges().len(),
    {
        self.index_by_rotated_right_edge.bucket_count()
    }

    /// The right edge at position `j` of the ascending order.
    pub fn bucket_edge(&self, j: usize) -> (edge: ArrayEdge<N>)
        requires
            j < self.edges().len(),
        ensures
            edge == self.edges()[j as int],
    {
        self.index_by_rotated_right_edge.buckets[j].edge
    }

    /// For each edge of the set, in ascending order, the mosaics that show
    /// it on `side`, as `query` finds them.
    pub fn iter_by_edge(&self, side: Side) -> (buckets: Vec<
        (ArrayEdge<N>, Vec<(usize, RotatedSquareMosaic<'_, N, M>)>),
    >)
        requires
            self.wf(),
        ensures
            buckets@.len() == self.edges().len(),
            forall|j: int|
                0 <= j < buckets@.len() ==> {
                    &&& (#[trigger] buckets@[j]).0 == self.edges()[j]
                    &&& views_match(
                        buckets@[j].1@,
                        self@,
                        spec_query(self@, side, self.edges()[j]@),
                    )
                },
    {
        let count = self.bucket_count();
        let mut buckets: Vec<(ArrayEdge<N>, Vec<(usize, RotatedSquareMosaic<'_, N, M>)>)> =
            Vec::new();
        let mut j: usize = 0;
        while j < count
            invariant
                j <= count,
                count == self.edges().len(),
                self.wf(),
                buckets@.len() == j,
                forall|i: int|
                    0 <= i < j ==> {
                        &&& (#[trigger] buckets@[i]).0 == self.edges()[i]
                        &&& views_match(
                            buckets@[i].1@,
                            self@,
                            spec_query(self@, side, self.edges()[i]@),
                        )
                    },
            decreases count - j,
        {
            let edge = self.bucket_edge(j);
            let found = self.query(side, &edge);
            buckets.push((edge, found));
            j = j + 1;
        }
        buckets
    }

    /// Two entries of one bucket that show the same grid are two of the
    /// mosaics in their rotations that show the same grid.
    proof fn lemma_collision_breaks_distinctness(&self, j: int, p: int, q: int)
        requires
            self.wf(),
            0 <= j < self.index_by_rotated_right_edge.buckets@.len(),
            0 <= p < q < self.index_by_rotated_right_edge.buckets@[j].entries@.len(),
            slots_collide(
                self@,
                self.index_by_rotated_right_edge.buckets@[j].entries@[p],
                self.index_by_rotated_right_edge.buckets@[j].entries@[q],
            ),
        ensures
            !orbits_distinct(self@),
    {
        let index = self.index_by_rotated_right_edge;
        let key = index.key(j);
        let keys = all_right_edges(self@);
        let slots = all_rotated_slots(self@.len());
        self.lemma_len_fits();
        assert(index.holds_at(j, key));
        index.lemma_stored_at(j, key);
        assert(index.stored(key) == filed_under(keys, slots, key));
        let (k1, k2) = lemma_filed_under_in_order(keys, slots, key, p, q);
        lemma_orbit_member_is_grid_of_slot(self@, k1);
        lemma_orbit_member_is_grid_of_slot(self@, k2);
        assert(orbit_member(self@, k1) == orbit_member(self@, k2));
    }

    /// Where no two entries of one bucket show the same grid, no two of the
    /// mosaics in their rotations do: those that do show the same right edge,
    /// and so stand in one bucket.
    proof fn lemma_no_collision_is_distinctness(&self)
        requires
            self.wf(),
            forall|j: int, p: int, q: int|
                0 <= j < self.index_by_rotated_right_edge.buckets@.len() && 0 <= p < q
                    < self.index_by_rotated_right_edge.buckets@[j].entries@.len()
                    ==> !#[trigger] slots_collide(
                    self@,
                    self.index_by_rotated_right_edge.buckets@[j].entries@[p],
                    self.index_by_rotated_right_edge.buckets@[j].entries@[q],
                ),
        ensures
            orbits_distinct(self@),
    {
        let index = self.index_by_rotated_right_edge;
        let keys = all_right_edges(self@);
        let slots = all_rotated_slots(self@.len());
        self.lemma_len_fits();
        assert forall|k1: int, k2: int| 0 <= k1 < k2 < 4 * self@.len() implies #[trigger] orbit_member(
            self@,
            k1,
        ) != #[trigger] orbit_member(self@, k2) by {
            if orbit_member(self@, k1) == orbit_member(self@, k2) {
                let first = rotated_slot(k1);
                let second = rotated_slot(k2);
                lemma_orbit_member_is_grid_of_slot(self@, k1);
                lemma_orbit_member_is_grid_of_slot(self@, k2);
                assert(slots_collide(self@, first, second));
                lemma_colliding_slots_share_their_right_edge(self@, first, second);
                let key = keys[k1];
                assert(keys[k2] == key);
                assert(slots[k1] == first && slots[k2] == second);
                lemma_filed_under_contains(keys, slots, key, first);
                lemma_filed_under_contains(keys, slots, key, second);
                let filed = filed_under(keys, slots, key);
                assert(index.stored(key) == filed);
                let p = choose|p: int| 0 <= p < filed.len() && filed[p] == first;
                let q = choose|q: int| 0 <= q < filed.len() && filed[q] == second;
                let j = choose|j: int| index.holds_at(j, key);
                index.lemma_stored_at(j, key);
                assert(first != second);
                if p < q {
                    assert(slots_collide(
                        self@,
                        index.buckets@[j].entries@[p],
                        index.buckets@[j].entries@[q],
                    ));
                } else {
                    assert(slots_collide(
                        self@,
                        index.buckets@[j].entries@[q],
                        index.buckets@[j].entries@[p],
                    ));
                }
            }
        }
    }

    /// Two entries of the bucket at position `j` that show the same grid, if
    /// there are two such.
    fn collides_in_bucket(&self, j: usize) -> (collides: Option<(usize, usize)>)
        requires
            self.wf(),
            j < self.index_by_rotated_right_edge.buckets@.len(),
        ensures
            match collides {
                Some((p, q)) => p < q < self.index_by_rotated_right_edge.buckets@[j as int].entries@.len()
                    && slots_collide(
                    self@,
                    self.index_by_rotated_right_edge.buckets@[j as int].entries@[p as int],
                    self.index_by_rotated_right_edge.buckets@[j as int].entries@[q as int],
                ),
                None => forall|p: int, q: int|
                    0 <= p < q < self.index_by_rotated_right_edge.buckets@[j as int].entries@.len()
                        ==> !#[trigger] slots_collide(
                        self@,
                        self.index_by_rotated_right_edge.buckets@[j as int].entries@[p],
                        self.index_by_rotated_right_edge.buckets@[j as int].entries@[q],
                    ),
            },
    {
        let entries = &self.index_by_rotated_right_edge.buckets[j].entries;
        proof {
            let key = self.index_by_rotated_right_edge.key(j as int);
            assert(self.index_by_rotated_right_edge.holds_at(j as int, key));
            self.index_by_rotated_right_edge.lemma_stored_at(j as int, key);
            assert forall|i: int| 0 <= i < entries@.len() implies (#[trigger] entries@[i]).index
                < self.mosaics@.len() by {
                assert(self.index_by_rotated_right_edge.stored(key)[i].index < self.mosaics@.len());
            }
        }
        let count = entries.len();
        let mut p: usize = 0;
        while p < count
            invariant
                p <= count,
                count == entries@.len(),
                j < self.index_by_rotated_right_edge.buckets@.len(),
                *entries == self.index_by_rotated_right_edge.buckets@[j as int].entries,
                forall|i: int| 0 <= i < entries@.len() ==> (#[trigger] entries@[i]).index
                    < self.mosaics@.len(),
                forall|a: int, b: int|
                    0 <= a < b < count && a < p ==> !#[trigger] slots_collide(
                        self@,
                        entries@[a],
                        entries@[b],
                    ),
            decreases count - p,
        {
            let first = entries[p];
            let view = RotatedSquareMosaic {
                mosaic: &self.mosaics[first.index],
                rotation: first.rotation,
            };
            let mut q: usize = p + 1;
            while q < count
                invariant
                    p < q <= count,
                    count == entries@.len(),
                    j < self.index_by_rotated_right_edge.buckets@.len(),
                    *entries == self.index_by_rotated_right_edge.buckets@[j as int].entries,
                    first == entries@[p as int],
                    *view.mosaic == self@[first.index as int],
                    view.rotation == first.rotation,
                    forall|i: int| 0 <= i < entries@.len() ==> (#[trigger] entries@[i]).index
                        < self.mosaics@.len(),
                    forall|a: int, b: int|
                        0 <= a < b < count && a < p ==> !#[trigger] slots_collide(
                            self@,
                            entries@[a],
                            entries@[b],
                        ),
                    forall|b: int|
                        p < b < q ==> !#[trigger] slots_collide(self@, entries@[p as int], entries@[b]),
                decreases count - q,
            {
                let second = entries[q];
                let partner = RotatedSquareMosaic {
                    mosaic: &self.mosaics[second.index],
                    rotation: second.rotation,
                };
                let same = tiles_equal(&view, &partner);
                proof {
                    lemma_same_tiles_is_same_grid(&view, &partner);
                }
                if same {
                    return Some((p, q));
                }
                q = q + 1;
            }
            p = p + 1;
        }
        None
    }

    /// Whether no two mosaics of the set, each seen in each of its four
    /// rotations, show the same grid. Mosaics that show the same grid show
    /// the same right edge, so only those filed under one edge are held
    /// against each other.
    pub fn is_distinct(&self) -> (distinct: bool)
        requires
            self.wf(),
        ensures
            distinct == orbits_distinct(self@),
    {
        let count = self.index_by_rotated_right_edge.bucket_count();
        let mut j: usize = 0;
        while j < count
            invariant
                j <= count,
                count == self.index_by_rotated_right_edge.buckets@.len(),
                self.wf(),
                forall|i: int, p: int, q: int|
                    0 <= i < j && 0 <= p < q < self.index_by_rotated_right_edge.buckets@[i].entries@.len()
                        ==> !#[trigger] slots_collide(
                        self@,
                        self.index_by_rotated_right_edge.buckets@[i].entries@[p],
                        self.index_by_rotated_right_edge.buckets@[i].entries@[q],
                    ),
            decreases count - j,
        {
            match self.collides_in_bucket(j) {
                Some((p, q)) => {
                    proof {
                        self.lemma_collision_breaks_distinctness(j as int, p as int, q as int);
                    }
                    return false;
                },
                None => {},
            }
            j = j + 1;
        }
        proof {
            self.lemma_no_collision_is_distinctness();
        }
        true
    }

    /// States that the mosaics of the set in their four rotations show four
    /// times as many grids as there are mosaics. This holds of the sets in
    /// which no two of them show the same grid, and of no others.
    pub fn assert_distinct(&self)
        requires
            orbits_distinct(self@),
        ensures
            orbit(self@).finite(),
            orbit(self@).len() == 4 * self@.len(),
    {
        proof {
            lemma_distinct_orbits_have_full_size(self@);
        }
    }
}

} // verus!
