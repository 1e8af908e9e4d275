use crate::edge::{edge_less, ArrayEdge};
use crate::mosaic::{
    grid, horizontal_edge, lemma_rotated_horizontal_edge_follows_rotation,
    lemma_rotated_horizontal_edge_is_edge_of_view, lemma_rotated_vertical_edge_follows_rotation,
    lemma_rotated_vertical_edge_is_edge_of_view, lemma_same_tiles_is_same_grid,
    rotated_horizontal_edge, rotated_vertical_edge, tiles_equal, vertical_edge, RectangularMosaic,
    RotatedRectangularMosaic,
};
use crate::rectangular::{HorizontalSide, RectangularRotation, VerticalSide};
use crate::set::index::{
    filed_under, lemma_filed_under_contains, lemma_filed_under_in_order, shifted_entries,
    EdgeIndex, RotatedIndex,
};
use crate::{Color, RotatedTile};
use vstd::prelude::*;

verus! {

/// A slot of a set of rectangular mosaics together with a rotation.
pub type RotatedRectangularMosaicIndex = RotatedIndex<RectangularRotation>;

/// A collection of rectangular mosaics of one size. Each mosaic gets the next
/// free slot when it comes in, and is then found by the colors along any of
/// its sides, in either of its two rotations.
#[derive(Clone, Debug)]
pub struct RectangularMosaicSet<const W: usize, const H: usize, M: RectangularMosaic<W, H>> {
    mosaics: Vec<M>,
    index_by_rotated_right_edge: EdgeIndex<H, RectangularRotation>,
    index_by_rotated_top_edge: EdgeIndex<W, RectangularRotation>,
}

/// The slot and rotation that stand at position `k` when every slot is
/// listed in each of its two rotations, slot by slot.
pub open spec fn rotated_slot(k: int) -> RotatedIndex<RectangularRotation> {
    RotatedIndex { index: (k / 2) as usize, rotation: RectangularRotation::from_turns(k % 2) }
}

/// All slots below `count` in both rotations, in the order of `rotated_slot`.
pub open spec fn all_rotated_slots(count: nat) -> Seq<RotatedIndex<RectangularRotation>> {
    Seq::new(2 * count, |k: int| rotated_slot(k))
}

/// `views` are the mosaics of the slots `slots`, each seen after the rotation
/// that stands with its slot, and each with the number of its slot.
pub open spec fn views_match<const W: usize, const H: usize, M: RectangularMosaic<W, H>>(
    views: Seq<(usize, RotatedRectangularMosaic<'_, W, H, M>)>,
    mosaics: Seq<M>,
    slots: Seq<RotatedIndex<RectangularRotation>>,
) -> bool {
    &&& views.len() == slots.len()
    &&& forall|i: int|
        0 <= i < views.len() ==> {
            &&& (#[trigger] views[i]).0 == slots[i].index
            &&& views[i].0 < mosaics.len()
            &&& *views[i].1.mosaic == mosaics[slots[i].index as int]
            &&& views[i].1.rotation == slots[i].rotation
        }
}

/// The mosaics of the slots `slots`, each seen after the rotation that
/// stands with its slot.
pub open spec fn spec_views<'a, const W: usize, const H: usize, M: RectangularMosaic<W, H>>(
    mosaics: Seq<M>,
    slots: Seq<RotatedIndex<RectangularRotation>>,
) -> Seq<RotatedRectangularMosaic<'a, W, H, M>> {
    Seq::new(
        slots.len(),
        |i: int|
            RotatedRectangularMosaic {
                mosaic: &mosaics[slots[i].index as int],
                rotation: slots[i].rotation,
            },
    )
}

/// Numbered views that match a list of slots are the views of these slots.
pub proof fn lemma_views_match<'a, const W: usize, const H: usize, M: RectangularMosaic<W, H>>(
    views: Seq<(usize, RotatedRectangularMosaic<'a, W, H, M>)>,
    mosaics: Seq<M>,
    slots: Seq<RotatedIndex<RectangularRotation>>,
)
    requires
        views_match(views, mosaics, slots),
    ensures
        crate::set::join::views_of(views) == spec_views::<W, H, M>(mosaics, slots),
{
    assert(crate::set::join::views_of(views) =~= spec_views::<W, H, M>(mosaics, slots));
}

/// The grid that the mosaic in slot `k / 2` shows after `k % 2` half turns.
#[verifier::opaque]
pub open spec fn orbit_member<const W: usize, const H: usize, M: RectangularMosaic<W, H>>(
    mosaics: Seq<M>,
    k: int,
) -> Seq<Seq<RotatedTile>> {
    grid(
        &RotatedRectangularMosaic {
            mosaic: &mosaics[k / 2],
            rotation: RectangularRotation::from_turns(k % 2),
        },
    )
}

/// No two of the mosaics, each seen in each of its two rotations, show the
/// same grid.
pub open spec fn orbits_distinct<const W: usize, const H: usize, M: RectangularMosaic<W, H>>(
    mosaics: Seq<M>,
) -> bool {
    forall|k1: int, k2: int|
        0 <= k1 < k2 < 2 * mosaics.len() ==> #[trigger] orbit_member(mosaics, k1)
            != #[trigger] orbit_member(mosaics, k2)
}

/// The grids of the first `k` of the mosaics in their rotations.
pub open spec fn orbit_upto<const W: usize, const H: usize, M: RectangularMosaic<W, H>>(
    mosaics: Seq<M>,
    k: nat,
) -> Set<Seq<Seq<RotatedTile>>>
    decreases k,
{
    if k == 0 {
        Set::empty()
    } else {
        orbit_upto(mosaics, (k - 1) as nat).insert(orbit_member(mosaics, k - 1))
    }
}

/// The grids that the mosaics show in their two rotations.
pub open spec fn orbit<const W: usize, const H: usize, M: RectangularMosaic<W, H>>(
    mosaics: Seq<M>,
) -> Set<Seq<Seq<RotatedTile>>> {
    orbit_upto(mosaics, 2 * mosaics.len())
}

proof fn lemma_orbit_upto<const W: usize, const H: usize, M: RectangularMosaic<W, H>>(
    mosaics: Seq<M>,
    k: nat,
)
    requires
        orbits_distinct(mosaics),
        k <= 2 * mosaics.len(),
    ensures
        orbit_upto(mosaics, k).finite(),
        orbit_upto(mosaics, k).len() == k,
        forall|g: Seq<Seq<RotatedTile>>|
            orbit_upto(mosaics, k).contains(g) ==> exists|j: int|
                0 <= j < k && #[trigger] orbit_member(mosaics, j) == g,
    decreases k,
{
    if k > 0 {
        let earlier = orbit_upto(mosaics, (k - 1) as nat);
        let member = orbit_member(mosaics, k - 1);
        lemma_orbit_upto(mosaics, (k - 1) as nat);
        if earlier.contains(member) {
            let j = choose|j: int| 0 <= j < k - 1 && #[trigger] orbit_member(mosaics, j) == member;
            assert(orbit_member(mosaics, j) != orbit_member(mosaics, k - 1));
        }
        assert forall|g: Seq<Seq<RotatedTile>>| orbit_upto(mosaics, k).contains(g) implies exists|
            j: int,
        |
            0 <= j < k && #[trigger] orbit_member(mosaics, j) == g by {
            if g == member {
                assert(orbit_member(mosaics, k - 1) == g);
            } else {
                assert(earlier.contains(g));
                let j = choose|j: int| 0 <= j < k - 1 && #[trigger] orbit_member(mosaics, j) == g;
                assert(0 <= j < k && orbit_member(mosaics, j) == g);
            }
        }
    }
}

/// Where no two mosaics in their rotations show the same grid, the grids
/// shown are twice as many as the mosaics.
pub proof fn lemma_distinct_orbits_have_full_size<
    const W: usize,
    const H: usize,
    M: RectangularMosaic<W, H>,
>(mosaics: Seq<M>)
    requires
        orbits_distinct(mosaics),
    ensures
        orbit(mosaics).finite(),
        orbit(mosaics).len() == 2 * mosaics.len(),
{
    lemma_orbit_upto(mosaics, 2 * mosaics.len());
}

/// The grid that the mosaic of a slot shows after the rotation that stands
/// with the slot.
pub open spec fn grid_of_slot<const W: usize, const H: usize, M: RectangularMosaic<W, H>>(
    mosaics: Seq<M>,
    slot: RotatedIndex<RectangularRotation>,
) -> Seq<Seq<RotatedTile>> {
    grid(&RotatedRectangularMosaic { mosaic: &mosaics[slot.index as int], rotation: slot.rotation })
}

/// Two slots show the same grid, each after its rotation.
pub open spec fn slots_collide<const W: usize, const H: usize, M: RectangularMosaic<W, H>>(
    mosaics: Seq<M>,
    first: RotatedIndex<RectangularRotation>,
    second: RotatedIndex<RectangularRotation>,
) -> bool {
    grid_of_slot(mosaics, first) == grid_of_slot(mosaics, second)
}

proof fn lemma_orbit_member_is_grid_of_slot<const W: usize, const H: usize, M: RectangularMosaic<W, H>>(
    mosaics: Seq<M>,
    k: int,
)
    requires
        0 <= k < 2 * mosaics.len(),
        mosaics.len() <= usize::MAX,
    ensures
        orbit_member(mosaics, k) == grid_of_slot(mosaics, rotated_slot(k)),
{
    reveal(orbit_member);
}

/// Slots that show the same grid show the same top edge.
proof fn lemma_colliding_slots_share_their_top_edge<const W: usize, const H: usize, M: RectangularMosaic<W, H>>(
    mosaics: Seq<M>,
    first: RotatedIndex<RectangularRotation>,
    second: RotatedIndex<RectangularRotation>,
)
    requires
        slots_collide(mosaics, first, second),
        (W > 0) == (H > 0),
    ensures
        rotated_horizontal_edge(&mosaics[first.index as int], first.rotation, HorizontalSide::Top)
            == rotated_horizontal_edge(
            &mosaics[second.index as int],
            second.rotation,
            HorizontalSide::Top,
        ),
{
    let a = RotatedRectangularMosaic { mosaic: &mosaics[first.index as int], rotation: first.rotation };
    let b = RotatedRectangularMosaic { mosaic: &mosaics[second.index as int], rotation: second.rotation };
    lemma_same_tiles_is_same_grid(&a, &b);
    crate::mosaic::lemma_same_tiles_show_same_edges(&a, &b);
    assert(crate::mosaic::spec_horizontal_edge(&a, HorizontalSide::Top)
        == crate::mosaic::spec_horizontal_edge(&b, HorizontalSide::Top));
    lemma_rotated_horizontal_edge_is_edge_of_view(
        &mosaics[first.index as int],
        first.rotation,
        HorizontalSide::Top,
    );
    lemma_rotated_horizontal_edge_is_edge_of_view(
        &mosaics[second.index as int],
        second.rotation,
        HorizontalSide::Top,
    );
}

/// The colors along the right side of the mosaic in slot `slot`, seen after
/// `rotation`.
pub open spec fn rotated_right_edge<const W: usize, const H: usize, M: RectangularMosaic<W, H>>(
    mosaics: Seq<M>,
    slot: int,
    rotation: RectangularRotation,
) -> Seq<Color> {
    rotated_vertical_edge(&mosaics[slot], rotation, VerticalSide::Right)
}

/// The right edges of all mosaics in both rotations, in the order of
/// `rotated_slot`.
pub open spec fn all_right_edges<const W: usize, const H: usize, M: RectangularMosaic<W, H>>(
    mosaics: Seq<M>,
) -> Seq<Seq<Color>> {
    Seq::new(
        2 * mosaics.len(),
        |k: int| rotated_right_edge(mosaics, k / 2, RectangularRotation::from_turns(k % 2)),
    )
}

/// The slots and rotations whose right edge is `edge`, by slot and then by
/// rotation.
pub open spec fn slots_with_right_edge<const W: usize, const H: usize, M: RectangularMosaic<W, H>>(
    mosaics: Seq<M>,
    edge: Seq<Color>,
) -> Seq<RotatedIndex<RectangularRotation>> {
    filed_under(all_right_edges(mosaics), all_rotated_slots(mosaics.len()), edge)
}

/// The slots whose mosaic shows `edge` on the vertical side `side`, each with
/// the rotation in which it does: those whose right edge is `edge`, turned
/// on so that what was on the right is on `side`.
pub open spec fn spec_query_vertical<const W: usize, const H: usize, M: RectangularMosaic<W, H>>(
    mosaics: Seq<M>,
    side: VerticalSide,
    edge: Seq<Color>,
) -> Seq<RotatedIndex<RectangularRotation>> {
    let found = slots_with_right_edge(mosaics, edge);
    Seq::new(
        found.len(),
        |i: int|
            RotatedIndex {
                index: found[i].index,
                rotation: found[i].rotation.plus(side.spec_rotation_from_right()),
            },
    )
}

/// What a query by a vertical side finds was filed under the edge asked for.
pub proof fn lemma_query_vertical_is_sound<const W: usize, const H: usize, M: RectangularMosaic<W, H>>(
    mosaics: Seq<M>,
    side: VerticalSide,
    edge: Seq<Color>,
    p: int,
)
    requires
        mosaics.len() <= usize::MAX,
        0 <= p < spec_query_vertical(mosaics, side, edge).len(),
    ensures
        spec_query_vertical(mosaics, side, edge)[p].index < mosaics.len(),
        rotated_vertical_edge(
            &mosaics[spec_query_vertical(mosaics, side, edge)[p].index as int],
            spec_query_vertical(mosaics, side, edge)[p].rotation,
            side,
        ) == edge,
{
    let turn = side.spec_rotation_from_right();
    let keys = all_right_edges(mosaics);
    let slots = all_rotated_slots(mosaics.len());
    let found = slots_with_right_edge(mosaics, edge);
    assert(found.contains(found[p]));
    lemma_filed_under_contains(keys, slots, edge, found[p]);
    let k = choose|k: int| 0 <= k < keys.len() && keys[k] == edge && #[trigger] slots[k] == found[p];
    assert(found[p].index == k / 2);
    assert(found[p].rotation == RectangularRotation::from_turns(k % 2));
    lemma_rotated_vertical_edge_follows_rotation(
        &mosaics[k / 2],
        found[p].rotation,
        turn,
        VerticalSide::Right,
    );
    assert(VerticalSide::Right.plus(turn) == side);
}

/// A query by a vertical side finds every slot and rotation that shows the
/// edge asked for on the side asked for.
proof fn lemma_query_vertical_is_complete<const W: usize, const H: usize, M: RectangularMosaic<W, H>>(
    mosaics: Seq<M>,
    side: VerticalSide,
    edge: Seq<Color>,
    slot: usize,
    rotation: RectangularRotation,
)
    requires
        mosaics.len() <= usize::MAX,
        slot < mosaics.len(),
        rotated_vertical_edge(&mosaics[slot as int], rotation, side) == edge,
    ensures
        spec_query_vertical(mosaics, side, edge).contains(RotatedIndex { index: slot, rotation }),
{
    let turn = side.spec_rotation_from_right();
    let keys = all_right_edges(mosaics);
    let slots = all_rotated_slots(mosaics.len());
    let found = slots_with_right_edge(mosaics, edge);
    let unturned = rotation.plus(turn);
    assert(unturned.plus(turn) == rotation);
    lemma_rotated_vertical_edge_follows_rotation(
        &mosaics[slot as int],
        unturned,
        turn,
        VerticalSide::Right,
    );
    assert(VerticalSide::Right.plus(turn) == side);
    let k = 2 * slot + unturned.spec_to_primitive();
    assert(k / 2 == slot && RectangularRotation::from_turns(k % 2) == unturned);
    assert(keys[k] == edge);
    let entry = RotatedIndex { index: slot, rotation: unturned };
    assert(slots[k] == entry);
    lemma_filed_under_contains(keys, slots, edge, entry);
    let p = choose|p: int| 0 <= p < found.len() && found[p] == entry;
    assert(spec_query_vertical(mosaics, side, edge)[p] == RotatedIndex { index: slot, rotation });
}

/// A query by a vertical side finds a slot in a rotation exactly if the mosaic
/// of that slot, seen after that rotation, shows the edge on the side asked
/// for.
pub proof fn lemma_query_vertical_is_exact<const W: usize, const H: usize, M: RectangularMosaic<W, H>>(
    mosaics: Seq<M>,
    side: VerticalSide,
    edge: Seq<Color>,
    slot: usize,
    rotation: RectangularRotation,
)
    requires
        mosaics.len() <= usize::MAX,
        slot < mosaics.len(),
    ensures
        spec_query_vertical(mosaics, side, edge).contains(RotatedIndex { index: slot, rotation })
            <==> rotated_vertical_edge(&mosaics[slot as int], rotation, side) == edge,
{
    let wanted = RotatedIndex { index: slot, rotation };
    if spec_query_vertical(mosaics, side, edge).contains(wanted) {
        let p = choose|p: int|
            0 <= p < spec_query_vertical(mosaics, side, edge).len() && spec_query_vertical(
                mosaics,
                side,
                edge,
            )[p] == wanted;
        lemma_query_vertical_is_sound(mosaics, side, edge, p);
    }
    if rotated_vertical_edge(&mosaics[slot as int], rotation, side) == edge {
        lemma_query_vertical_is_complete(mosaics, side, edge, slot, rotation);
    }
}

/// The colors along the top side of the mosaic in slot `slot`, seen after
/// `rotation`.
pub open spec fn rotated_top_edge<const W: usize, const H: usize, M: RectangularMosaic<W, H>>(
    mosaics: Seq<M>,
    slot: int,
    rotation: RectangularRotation,
) -> Seq<Color> {
    rotated_horizontal_edge(&mosaics[slot], rotation, HorizontalSide::Top)
}

/// The top edges of all mosaics in both rotations, in the order of
/// `rotated_slot`.
pub open spec fn all_top_edges<const W: usize, const H: usize, M: RectangularMosaic<W, H>>(
    mosaics: Seq<M>,
) -> Seq<Seq<Color>> {
    Seq::new(
        2 * mosaics.len(),
        |k: int| rotated_top_edge(mosaics, k / 2, RectangularRotation::from_turns(k % 2)),
    )
}

/// The slots and rotations whose top edge is `edge`, by slot and then by
/// rotation.
pub open spec fn slots_with_top_edge<const W: usize, const H: usize, M: RectangularMosaic<W, H>>(
    mosaics: Seq<M>,
    edge: Seq<Color>,
) -> Seq<RotatedIndex<RectangularRotation>> {
    filed_under(all_top_edges(mosaics), all_rotated_slots(mosaics.len()), edge)
}

/// The slots whose mosaic shows `edge` on the horizontal side `side`, each with
/// the rotation in which it does: those whose top edge is `edge`, turned
/// on so that what was on the top is on `side`.
pub open spec fn spec_query_horizontal<const W: usize, const H: usize, M: RectangularMosaic<W, H>>(
    mosaics: Seq<M>,
    side: HorizontalSide,
    edge: Seq<Color>,
) -> Seq<RotatedIndex<RectangularRotation>> {
    let found = slots_with_top_edge(mosaics, edge);
    Seq::new(
        found.len(),
        |i: int|
            RotatedIndex {
                index: found[i].index,
                rotation: found[i].rotation.plus(side.spec_rotation_from_top()),
            },
    )
}

/// What a query by a horizontal side finds was filed under the edge asked for.
pub proof fn lemma_query_horizontal_is_sound<const W: usize, const H: usize, M: RectangularMosaic<W, H>>(
    mosaics: Seq<M>,
    side: HorizontalSide,
    edge: Seq<Color>,
    p: int,
)
    requires
        mosaics.len() <= usize::MAX,
        0 <= p < spec_query_horizontal(mosaics, side, edge).len(),
    ensures
        spec_query_horizontal(mosaics, side, edge)[p].index < mosaics.len(),
        rotated_horizontal_edge(
            &mosaics[spec_query_horizontal(mosaics, side, edge)[p].index as int],
            spec_query_horizontal(mosaics, side, edge)[p].rotation,
            side,
        ) == edge,
{
    let turn = side.spec_rotation_from_top();
    let keys = all_top_edges(mosaics);
    let slots = all_rotated_slots(mosaics.len());
    let found = slots_with_top_edge(mosaics, edge);
    assert(found.contains(found[p]));
    lemma_filed_under_contains(keys, slots, edge, found[p]);
    let k = choose|k: int| 0 <= k < keys.len() && keys[k] == edge && #[trigger] slots[k] == found[p];
    assert(found[p].index == k / 2);
    assert(found[p].rotation == RectangularRotation::from_turns(k % 2));
    lemma_rotated_horizontal_edge_follows_rotation(
        &mosaics[k / 2],
        found[p].rotation,
        turn,
        HorizontalSide::Top,
    );
    assert(HorizontalSide::Top.plus(turn) == side);
}

/// A query by a horizontal side finds every slot and rotation that shows the
/// edge asked for on the side asked for.
proof fn lemma_query_horizontal_is_complete<const W: usize, const H: usize, M: RectangularMosaic<W, H>>(
    mosaics: Seq<M>,
    side: HorizontalSide,
    edge: Seq<Color>,
    slot: usize,
    rotation: RectangularRotation,
)
    requires
        mosaics.len() <= usize::MAX,
        slot < mosaics.len(),
        rotated_horizontal_edge(&mosaics[slot as int], rotation, side) == edge,
    ensures
        spec_query_horizontal(mosaics, side, edge).contains(RotatedIndex { index: slot, rotation }),
{
    let turn = side.spec_rotation_from_top();
    let keys = all_top_edges(mosaics);
    let slots = all_rotated_slots(mosaics.len());
    let found = slots_with_top_edge(mosaics, edge);
    let unturned = rotation.plus(turn);
    assert(unturned.plus(turn) == rotation);
    lemma_rotated_horizontal_edge_follows_rotation(
        &mosaics[slot as int],
        unturned,
        turn,
        HorizontalSide::Top,
    );
    assert(HorizontalSide::Top.plus(turn) == side);
    let k = 2 * slot + unturned.spec_to_primitive();
    assert(k / 2 == slot && RectangularRotation::from_turns(k % 2) == unturned);
    assert(keys[k] == edge);
    let entry = RotatedIndex { index: slot, rotation: unturned };
    assert(slots[k] == entry);
    lemma_filed_under_contains(keys, slots, edge, entry);
    let p = choose|p: int| 0 <= p < found.len() && found[p] == entry;
    assert(spec_query_horizontal(mosaics, side, edge)[p] == RotatedIndex { index: slot, rotation });
}

/// A query by a horizontal side finds a slot in a rotation exactly if the mosaic
/// of that slot, seen after that rotation, shows the edge on the side asked
/// for.
pub proof fn lemma_query_horizontal_is_exact<const W: usize, const H: usize, M: RectangularMosaic<W, H>>(
    mosaics: Seq<M>,
    side: HorizontalSide,
    edge: Seq<Color>,
    slot: usize,
    rotation: RectangularRotation,
)
    requires
        mosaics.len() <= usize::MAX,
        slot < mosaics.len(),
    ensures
        spec_query_horizontal(mosaics, side, edge).contains(RotatedIndex { index: slot, rotation })
            <==> rotated_horizontal_edge(&mosaics[slot as int], rotation, side) == edge,
{
    let wanted = RotatedIndex { index: slot, rotation };
    if spec_query_horizontal(mosaics, side, edge).contains(wanted) {
        let p = choose|p: int|
            0 <= p < spec_query_horizontal(mosaics, side, edge).len() && spec_query_horizontal(
                mosaics,
                side,
                edge,
            )[p] == wanted;
        lemma_query_horizontal_is_sound(mosaics, side, edge, p);
    }
    if rotated_horizontal_edge(&mosaics[slot as int], rotation, side) == edge {
        lemma_query_horizontal_is_complete(mosaics, side, edge, slot, rotation);
    }
}

impl<const W: usize, const H: usize, M: RectangularMosaic<W, H>> RectangularMosaicSet<W, H, M> {
    /// The mosaics of the set, by slot.
    pub closed spec fn view(&self) -> Seq<M> {
        self.mosaics@
    }

    /// Each index holds, under each edge, the slots and rotations whose
    /// right edge, or top edge, it is.
    pub closed spec fn wf(&self) -> bool {
        &&& self.mosaics@.len() > 0 ==> (W > 0) == (H > 0)
        &&& self.index_by_rotated_right_edge.wf()
        &&& self.index_by_rotated_right_edge.represents(
            all_right_edges(self.mosaics@),
            all_rotated_slots(self.mosaics@.len()),
        )
        &&& forall|edge: Seq<Color>, i: int|
            0 <= i < self.index_by_rotated_right_edge.stored(edge).len() ==> (
            #[trigger] self.index_by_rotated_right_edge.stored(edge)[i]).index
                < self.mosaics@.len()
        &&& self.index_by_rotated_top_edge.wf()
        &&& self.index_by_rotated_top_edge.represents(
            all_top_edges(self.mosaics@),
            all_rotated_slots(self.mosaics@.len()),
        )
        &&& forall|edge: Seq<Color>, i: int|
            0 <= i < self.index_by_rotated_top_edge.stored(edge).len() ==> (
            #[trigger] self.index_by_rotated_top_edge.stored(edge)[i]).index < self.mosaics@.len()
    }

    /// A set holds no more mosaics than can be counted.
    pub proof fn lemma_len_fits(&self)
        ensures
            self@.len() <= usize::MAX,
    {
        assert(self.mosaics.len() == self.mosaics@.len());
    }

    /// Two sets made of the same two runs of mosaics, one run after the
    /// other, hold the same mosaics in the same slots, show the same edges
    /// and answer every query alike; and where the runs came in the other
    /// order, the set holds the same mosaics in other slots.
    pub proof fn lemma_merging_only_relabels(
        one: &Self,
        merged: &Self,
        other_way: &Self,
        first: Seq<M>,
        second: Seq<M>,
    )
        requires
            one.wf(),
            merged.wf(),
            one@ == first + second,
            merged@ == first + second,
            other_way@ == second + first,
        ensures
            merged@ == one@,
            merged.vertical_edges() == one.vertical_edges(),
            merged.horizontal_edges() == one.horizontal_edges(),
            forall|side: VerticalSide, edge: Seq<Color>|
                spec_query_vertical(merged@, side, edge) == spec_query_vertical(one@, side, edge),
            forall|side: HorizontalSide, edge: Seq<Color>|
                spec_query_horizontal(merged@, side, edge) == spec_query_horizontal(
                    one@,
                    side,
                    edge,
                ),
            other_way@.to_multiset() == one@.to_multiset(),
    {
        vstd::seq_lib::lemma_seq_union_to_multiset_commutative(first, second);
        merged.lemma_same_mosaics_same_vertical_edges(one);
        merged.lemma_same_mosaics_same_horizontal_edges(one);
    }

    /// The mosaics of a set that holds any have columns if they have rows,
    /// and rows if they have columns.
    pub proof fn lemma_sizes(&self)
        requires
            self.wf(),
            self@.len() > 0,
        ensures
            (W > 0) == (H > 0),
    {
    }

    /// The set without mosaics.
    pub fn new() -> (set: Self)
        ensures
            set.wf(),
            set@ == Seq::<M>::empty(),
    {
        let set = RectangularMosaicSet {
            mosaics: Vec::new(),
            index_by_rotated_right_edge: EdgeIndex::new(),
            index_by_rotated_top_edge: EdgeIndex::new(),
        };
        proof {
            assert(all_right_edges(set.mosaics@) =~= Seq::empty());
            assert(all_top_edges(set.mosaics@) =~= Seq::empty());
            assert(all_rotated_slots(set.mosaics@.len()) =~= Seq::empty());
        }
        set
    }

    /// Number of mosaics in the set.
    pub fn len(&self) -> (len: usize)
        ensures
            len == self@.len(),
    {
        self.mosaics.len()
    }

    /// The mosaics of the set, by slot.
    pub fn iter_mosaics(&self) -> (mosaics: &Vec<M>)
        ensures
            mosaics@ == self@,
    {
        &self.mosaics
    }

    /// The mosaic in the slot of `i`, seen after the rotation of `i`.
    pub fn get(&self, i: RotatedRectangularMosaicIndex) -> (view: RotatedRectangularMosaic<
        '_,
        W,
        H,
        M,
    >)
        requires
            i.index < self@.len(),
        ensures
            *view.mosaic == self@[i.index as int],
            view.rotation == i.rotation,
    {
        RotatedRectangularMosaic { mosaic: &self.mosaics[i.index], rotation: i.rotation }
    }

    /// Puts `mosaic` into the next free slot. A mosaic that is put into a set
    /// has columns if it has rows, and rows if it has columns.
    pub fn insert(&mut self, mosaic: M)
        requires
            old(self).wf(),
            (W > 0) == (H > 0),
        ensures
            final(self).wf(),
            final(self)@ == old(self)@.push(mosaic),
    {
        let index = self.mosaics.len();
        let ghost grown = self.mosaics@.push(mosaic);
        let ghost right_keys = all_right_edges(grown);
        let ghost top_keys = all_top_edges(grown);
        let ghost slots = all_rotated_slots(grown.len());
        proof {
            assert(right_keys.take(2 * index) =~= all_right_edges(self.mosaics@));
            assert(top_keys.take(2 * index) =~= all_top_edges(self.mosaics@));
            assert(slots.take(2 * index) =~= all_rotated_slots(self.mosaics@.len()));
        }
        let mut turns: u8 = 0;
        while turns < 2
            invariant
                turns <= 2,
                (W > 0) == (H > 0),
                index == self.mosaics@.len(),
                grown == self.mosaics@.push(mosaic),
                right_keys == all_right_edges(grown),
                top_keys == all_top_edges(grown),
                slots == all_rotated_slots(grown.len()),
                self.index_by_rotated_right_edge.wf(),
                self.index_by_rotated_right_edge.represents(
                    right_keys.take(2 * index + turns),
                    slots.take(2 * index + turns),
                ),
                forall|edge: Seq<Color>, i: int|
                    0 <= i < self.index_by_rotated_right_edge.stored(edge).len() ==> (
                    #[trigger] self.index_by_rotated_right_edge.stored(edge)[i]).index
                        <= self.mosaics@.len(),
                self.index_by_rotated_top_edge.wf(),
                self.index_by_rotated_top_edge.represents(
                    top_keys.take(2 * index + turns),
                    slots.take(2 * index + turns),
                ),
                forall|edge: Seq<Color>, i: int|
                    0 <= i < self.index_by_rotated_top_edge.stored(edge).len() ==> (
                    #[trigger] self.index_by_rotated_top_edge.stored(edge)[i]).index
                        <= self.mosaics@.len(),
            decreases 2 - turns,
        {
            let rotation = RectangularRotation::new_masked(turns);
            let view = RotatedRectangularMosaic { mosaic: &mosaic, rotation };
            let right = vertical_edge(&view, VerticalSide::Right);
            let top = horizontal_edge(&view, HorizontalSide::Top);
            let entry = RotatedIndex { index, rotation };
            let ghost right_before = self.index_by_rotated_right_edge;
            let ghost top_before = self.index_by_rotated_top_edge;
            self.index_by_rotated_right_edge.push(right, entry);
            self.index_by_rotated_top_edge.push(top, entry);
            proof {
                let k = 2 * index + turns;
                assert(k / 2 == index && k % 2 == turns);
                lemma_rotated_vertical_edge_is_edge_of_view(
                    &grown[index as int],
                    rotation,
                    VerticalSide::Right,
                );
                lemma_rotated_horizontal_edge_is_edge_of_view(
                    &grown[index as int],
                    rotation,
                    HorizontalSide::Top,
                );
                assert(right_keys[k] == right@);
                assert(top_keys[k] == top@);
                assert(slots[k] == entry);
                self.index_by_rotated_right_edge.lemma_represents_one_more(
                    &right_before,
                    right_keys.take(k),
                    slots.take(k),
                    right@,
                    entry,
                );
                self.index_by_rotated_top_edge.lemma_represents_one_more(
                    &top_before,
                    top_keys.take(k),
                    slots.take(k),
                    top@,
                    entry,
                );
                assert(right_keys.take(k).push(right@) =~= right_keys.take(k + 1));
                assert(top_keys.take(k).push(top@) =~= top_keys.take(k + 1));
                assert(slots.take(k).push(entry) =~= slots.take(k + 1));
                assert forall|edge: Seq<Color>, i: int|
                    0 <= i < self.index_by_rotated_right_edge.stored(edge).len() implies (
                #[trigger] self.index_by_rotated_right_edge.stored(edge)[i]).index
                    <= self.mosaics@.len() by {
                    if edge == right@ {
                        if i < right_before.stored(edge).len() {
                            assert(right_before.stored(edge)[i].index <= self.mosaics@.len());
                        }
                    } else {
                        assert(right_before.stored(edge)[i].index <= self.mosaics@.len());
                    }
                }
                assert forall|edge: Seq<Color>, i: int|
                    0 <= i < self.index_by_rotated_top_edge.stored(edge).len() implies (
                #[trigger] self.index_by_rotated_top_edge.stored(edge)[i]).index
                    <= self.mosaics@.len() by {
                    if edge == top@ {
                        if i < top_before.stored(edge).len() {
                            assert(top_before.stored(edge)[i].index <= self.mosaics@.len());
                        }
                    } else {
                        assert(top_before.stored(edge)[i].index <= self.mosaics@.len());
                    }
                }
            }
            turns = turns + 1;
        }
        self.mosaics.push(mosaic);
        proof {
            assert(right_keys.take(2 * index + 2) =~= right_keys);
            assert(top_keys.take(2 * index + 2) =~= top_keys);
            assert(slots.take(2 * index + 2) =~= slots);
            assert forall|edge: Seq<Color>, i: int|
                0 <= i < self.index_by_rotated_right_edge.stored(edge).len() implies (
            #[trigger] self.index_by_rotated_right_edge.stored(edge)[i]).index
                < self.mosaics@.len() by {
                assert(self.index_by_rotated_right_edge.stored(edge)[i].index <= index);
            }
            assert forall|edge: Seq<Color>, i: int|
                0 <= i < self.index_by_rotated_top_edge.stored(edge).len() implies (
            #[trigger] self.index_by_rotated_top_edge.stored(edge)[i]).index
                < self.mosaics@.len() by {
                assert(self.index_by_rotated_top_edge.stored(edge)[i].index <= index);
            }
        }
    }

    /// Takes over the mosaics of `other`, in their order, into the next free
    /// slots.
    pub fn extend(&mut self, other: Self)
        requires
            old(self).wf(),
            other.wf(),
        ensures
            final(self).wf(),
            final(self)@ == old(self)@ + other@,
    {
        let base = self.mosaics.len();
        let ghost before = *self;
        let RectangularMosaicSet {
            mosaics: mut more,
            index_by_rotated_right_edge: more_right,
            index_by_rotated_top_edge: more_top,
        } = other;
        let ghost added = more@;
        self.mosaics.append(&mut more);
        let total = self.mosaics.len();
        proof {
            assert forall|j: int, i: int|
                0 <= j < more_right.buckets@.len() && 0 <= i < more_right.buckets@[j].entries@.len()
                implies (#[trigger] more_right.buckets@[j].entries@[i]).index + base
                <= usize::MAX by {
                let key = more_right.key(j);
                assert(more_right.holds_at(j, key));
                more_right.lemma_stored_at(j, key);
                assert(more_right.stored(key)[i].index < added.len());
            }
            assert forall|j: int, i: int|
                0 <= j < more_top.buckets@.len() && 0 <= i < more_top.buckets@[j].entries@.len()
                implies (#[trigger] more_top.buckets@[j].entries@[i]).index + base
                <= usize::MAX by {
                let key = more_top.key(j);
                assert(more_top.holds_at(j, key));
                more_top.lemma_stored_at(j, key);
                assert(more_top.stored(key)[i].index < added.len());
            }
        }
        self.index_by_rotated_right_edge.append_shifted(&more_right, base);
        self.index_by_rotated_top_edge.append_shifted(&more_top, base);
        proof {
            let grown = before.mosaics@ + added;
            self.index_by_rotated_right_edge.lemma_represents_appended(
                &before.index_by_rotated_right_edge,
                &more_right,
                base as int,
                all_right_edges(before.mosaics@),
                all_rotated_slots(before.mosaics@.len()),
                all_right_edges(added),
                all_rotated_slots(added.len()),
            );
            self.index_by_rotated_top_edge.lemma_represents_appended(
                &before.index_by_rotated_top_edge,
                &more_top,
                base as int,
                all_top_edges(before.mosaics@),
                all_rotated_slots(before.mosaics@.len()),
                all_top_edges(added),
                all_rotated_slots(added.len()),
            );
            assert(all_right_edges(grown) =~= all_right_edges(before.mosaics@) + all_right_edges(
                added,
            )) by {
                assert forall|k: int| 2 * base <= k < 2 * total implies all_right_edges(grown)[k]
                    == all_right_edges(added)[k - 2 * base] by {
                    assert(grown[k / 2] == added[(k - 2 * base) / 2]);
                }
            }
            assert(all_top_edges(grown) =~= all_top_edges(before.mosaics@) + all_top_edges(added))
                by {
                assert forall|k: int| 2 * base <= k < 2 * total implies all_top_edges(grown)[k]
                    == all_top_edges(added)[k - 2 * base] by {
                    assert(grown[k / 2] == added[(k - 2 * base) / 2]);
                }
            }
            assert(all_rotated_slots(grown.len()) =~= all_rotated_slots(before.mosaics@.len())
                + shifted_entries(all_rotated_slots(added.len()), base as int));
            assert forall|edge: Seq<Color>, i: int|
                0 <= i < self.index_by_rotated_right_edge.stored(edge).len() implies (
            #[trigger] self.index_by_rotated_right_edge.stored(edge)[i]).index
                < self.mosaics@.len() by {
                let own = before.index_by_rotated_right_edge.stored(edge);
                let taken = more_right.stored(edge);
                if i < own.len() {
                    assert(own[i].index < base);
                } else {
                    assert(taken[i - own.len()].index < added.len());
                }
            }
            assert forall|edge: Seq<Color>, i: int|
                0 <= i < self.index_by_rotated_top_edge.stored(edge).len() implies (
            #[trigger] self.index_by_rotated_top_edge.stored(edge)[i]).index
                < self.mosaics@.len() by {
                let own = before.index_by_rotated_top_edge.stored(edge);
                let taken = more_top.stored(edge);
                if i < own.len() {
                    assert(own[i].index < base);
                } else {
                    assert(taken[i - own.len()].index < added.len());
                }
            }
        }
    }

    /// The right edges that mosaics of the set show in some rotation, in
    /// ascending order.
    pub closed spec fn vertical_edges(&self) -> Seq<ArrayEdge<H>> {
        Seq::new(
            self.index_by_rotated_right_edge.buckets@.len(),
            |j: int| self.index_by_rotated_right_edge.buckets@[j].edge,
        )
    }

    /// The right edges of a set are in ascending order, each is the right
    /// edge of some mosaic in some rotation, and none such is missing.
    pub proof fn lemma_vertical_edges(&self)
        requires
            self.wf(),
        ensures
            forall|i: int, j: int|
                0 <= i < j < self.vertical_edges().len() ==> edge_less(
                    (#[trigger] self.vertical_edges()[i])@,
                    (#[trigger] self.vertical_edges()[j])@,
                ),
            forall|j: int|
                0 <= j < self.vertical_edges().len() ==> slots_with_right_edge(
                    self@,
                    (#[trigger] self.vertical_edges()[j])@,
                ).len() > 0,
            forall|edge: Seq<Color>|
                (#[trigger] slots_with_right_edge(self@, edge)).len() > 0 ==> exists|j: int|
                    0 <= j < self.vertical_edges().len() && (#[trigger] self.vertical_edges()[j])@
                        == edge,
    {
        let index = self.index_by_rotated_right_edge;
        assert forall|i: int, j: int| 0 <= i < j < self.vertical_edges().len() implies edge_less(
            (#[trigger] self.vertical_edges()[i])@,
            (#[trigger] self.vertical_edges()[j])@,
        ) by {
            assert(edge_less(index.key(i), index.key(j)));
        }
        assert forall|j: int| 0 <= j < self.vertical_edges().len() implies slots_with_right_edge(
            self@,
            (#[trigger] self.vertical_edges()[j])@,
        ).len() > 0 by {
            let key = index.key(j);
            assert(index.holds_at(j, key));
            index.lemma_stored_at(j, key);
            assert(index.stored(key) == slots_with_right_edge(self@, key));
            assert(index.buckets@[j].entries@.len() > 0);
        }
        assert forall|edge: Seq<Color>|
            (#[trigger] slots_with_right_edge(self@, edge)).len() > 0 implies exists|j: int|
            0 <= j < self.vertical_edges().len() && (#[trigger] self.vertical_edges()[j])@ == edge by {
            assert(index.stored(edge) == slots_with_right_edge(self@, edge));
            let j = choose|j: int| index.holds_at(j, edge);
            assert(self.vertical_edges()[j]@ == edge);
        }
    }

    /// Sets that hold the same mosaics in the same slots show the same edges
    /// in the same order.
    pub proof fn lemma_same_mosaics_same_vertical_edges(&self, other: &Self)
        requires
            self.wf(),
            other.wf(),
            self@ == other@,
        ensures
            self.vertical_edges() == other.vertical_edges(),
    {
        self.lemma_vertical_edges();
        other.lemma_vertical_edges();
        assert forall|edge: ArrayEdge<H>| self.vertical_edges().contains(edge) <==> other.vertical_edges().contains(
            edge,
        ) by {
            if self.vertical_edges().contains(edge) {
                let j = choose|j: int| 0 <= j < self.vertical_edges().len() && self.vertical_edges()[j] == edge;
                assert(slots_with_right_edge(self@, self.vertical_edges()[j]@).len() > 0);
                let k = choose|k: int|
                    0 <= k < other.vertical_edges().len() && (#[trigger] other.vertical_edges()[k])@ == edge@;
                other.vertical_edges()[k].lemma_view_determines(edge);
            }
            if other.vertical_edges().contains(edge) {
                let j = choose|j: int| 0 <= j < other.vertical_edges().len() && other.vertical_edges()[j] == edge;
                assert(slots_with_right_edge(other@, other.vertical_edges()[j]@).len() > 0);
                let k = choose|k: int|
                    0 <= k < self.vertical_edges().len() && (#[trigger] self.vertical_edges()[k])@ == edge@;
                self.vertical_edges()[k].lemma_view_determines(edge);
            }
        }
        crate::set::index::lemma_ascending_edges_are_determined(self.vertical_edges(), other.vertical_edges());
    }

    /// Number of different right edges that mosaics of the set show.
    pub fn vertical_bucket_count(&self) -> (count: usize)
        ensures
            count == self.vertical_edges().len(),
    {
        self.index_by_rotated_right_edge.bucket_count()
    }

    /// The right edge at position `j` of the ascending order.
    pub fn vertical_bucket_edge(&self, j: usize) -> (edge: ArrayEdge<H>)
        requires
            j < self.vertical_edges().len(),
        ensures
            edge == self.vertical_edges()[j as int],
    {
        self.index_by_rotated_right_edge.buckets[j].edge
    }

    /// The mosaics that show `edge` on the vertical side `side`, each in the
    /// rotation in which it does and with the number of its slot, by slot.
    pub fn query_vertical(&self, side: VerticalSide, edge: &ArrayEdge<H>) -> (found: Vec<
        (usize, RotatedRectangularMosaic<'_, W, H, M>),
    >)
        requires
            self.wf(),
        ensures
            views_match(found@, self@, spec_query_vertical(self@, side, edge@)),
    {
        let turn = side.rotation_from_right();
        let mut found: Vec<(usize, RotatedRectangularMosaic<'_, W, H, M>)> = Vec::new();
        let ghost expected = spec_query_vertical(self@, side, edge@);
        match self.index_by_rotated_right_edge.get(edge) {
            None => {},
            Some(entries) => {
                let mut i: usize = 0;
                while i < entries.len()
                    invariant
                        i <= entries@.len(),
                        self.wf(),
                        entries@ == self.index_by_rotated_right_edge.stored(edge@),
                        entries@ == slots_with_right_edge(self@, edge@),
                        expected == spec_query_vertical(self@, side, edge@),
                        turn == side.spec_rotation_from_right(),
                        views_match(found@, self@, expected.take(i as int)),
                    decreases entries@.len() - i,
                {
                    let entry = entries[i];
                    assert(self.index_by_rotated_right_edge.stored(edge@)[i as int].index
                        < self.mosaics@.len());
                    let view = RotatedRectangularMosaic {
                        mosaic: &self.mosaics[entry.index],
                        rotation: entry.rotation.plus(turn),
                    };
                    let ghost earlier = found@;
                    found.push((entry.index, view));
                    proof {
                        assert(expected.take(i + 1) =~= expected.take(i as int).push(
                            expected[i as int],
                        ));
                        assert forall|k: int| 0 <= k < found@.len() implies {
                            &&& (#[trigger] found@[k]).0 == expected.take(i + 1)[k].index
                            &&& found@[k].0 < self@.len()
                            &&& *found@[k].1.mosaic == self@[expected.take(i + 1)[k].index as int]
                            &&& found@[k].1.rotation == expected.take(i + 1)[k].rotation
                        } by {
                            if k < i {
                                assert(found@[k] == earlier[k]);
                            }
                        }
                    }
                    i = i + 1;
                }
                proof {
                    assert(expected.take(i as int) =~= expected);
                }
            },
        }
        found
    }

    /// For each right edge of the set, in ascending order, the mosaics that
    /// show it on the vertical side `side`, as `query_vertical` finds them.
    pub fn iter_by_vertical_edge(&self, side: VerticalSide) -> (buckets: Vec<
        (ArrayEdge<H>, Vec<(usize, RotatedRectangularMosaic<'_, W, H, M>)>),
    >)
        requires
            self.wf(),
        ensures
            buckets@.len() == self.vertical_edges().len(),
            forall|j: int|
                0 <= j < buckets@.len() ==> {
                    &&& (#[trigger] buckets@[j]).0 == self.vertical_edges()[j]
                    &&& views_match(
                        buckets@[j].1@,
                        self@,
                        spec_query_vertical(self@, side, self.vertical_edges()[j]@),
                    )
                },
    {
        let count = self.vertical_bucket_count();
        let mut buckets: Vec<
            (ArrayEdge<H>, Vec<(usize, RotatedRectangularMosaic<'_, W, H, M>)>),
        > = Vec::new();
        let mut j: usize = 0;
        while j < count
            invariant
                j <= count,
                count == self.vertical_edges().len(),
                self.wf(),
                buckets@.len() == j,
                forall|i: int|
                    0 <= i < j ==> {
                        &&& (#[trigger] buckets@[i]).0 == self.vertical_edges()[i]
                        &&& views_match(
                            buckets@[i].1@,
                            self@,
                            spec_query_vertical(self@, side, self.vertical_edges()[i]@),
                        )
                    },
            decreases count - j,
        {
            let edge = self.vertical_bucket_edge(j);
            let found = self.query_vertical(side, &edge);
            buckets.push((edge, found));
            j = j + 1;
        }
        buckets
    }

    /// The top edges that mosaics of the set show in some rotation, in
    /// ascending order.
    pub closed spec fn horizontal_edges(&self) -> Seq<ArrayEdge<W>> {
        Seq::new(
            self.index_by_rotated_top_edge.buckets@.len(),
            |j: int| self.index_by_rotated_top_edge.buckets@[j].edge,
        )
    }

    /// The top edges of a set are in ascending order, each is the top
    /// edge of some mosaic in some rotation, and none such is missing.
    pub proof fn lemma_horizontal_edges(&self)
        requires
            self.wf(),
        ensures
            forall|i: int, j: int|
                0 <= i < j < self.horizontal_edges().len() ==> edge_less(
                    (#[trigger] self.horizontal_edges()[i])@,
                    (#[trigger] self.horizontal_edges()[j])@,
                ),
            forall|j: int|
                0 <= j < self.horizontal_edges().len() ==> slots_with_top_edge(
                    self@,
                    (#[trigger] self.horizontal_edges()[j])@,
                ).len() > 0,
            forall|edge: Seq<Color>|
                (#[trigger] slots_with_top_edge(self@, edge)).len() > 0 ==> exists|j: int|
                    0 <= j < self.horizontal_edges().len() && (#[trigger] self.horizontal_edges()[j])@
                        == edge,
    {
        let index = self.index_by_rotated_top_edge;
        assert forall|i: int, j: int| 0 <= i < j < self.horizontal_edges().len() implies edge_less(
            (#[trigger] self.horizontal_edges()[i])@,
            (#[trigger] self.horizontal_edges()[j])@,
        ) by {
            assert(edge_less(index.key(i), index.key(j)));
        }
        assert forall|j: int| 0 <= j < self.horizontal_edges().len() implies slots_with_top_edge(
            self@,
            (#[trigger] self.horizontal_edges()[j])@,
        ).len() > 0 by {
            let key = index.key(j);
            assert(index.holds_at(j, key));
            index.lemma_stored_at(j, key);
            assert(index.stored(key) == slots_with_top_edge(self@, key));
            assert(index.buckets@[j].entries@.len() > 0);
        }
        assert forall|edge: Seq<Color>|
            (#[trigger] slots_with_top_edge(self@, edge)).len() > 0 implies exists|j: int|
            0 <= j < self.horizontal_edges().len() && (#[trigger] self.horizontal_edges()[j])@ == edge by {
            assert(index.stored(edge) == slots_with_top_edge(self@, edge));
            let j = choose|j: int| index.holds_at(j, edge);
            assert(self.horizontal_edges()[j]@ == edge);
        }
    }

    /// Sets that hold the same mosaics in the same slots show the same edges
    /// in the same order.
    pub proof fn lemma_same_mosaics_same_horizontal_edges(&self, other: &Self)
        requires
            self.wf(),
            other.wf(),
            self@ == other@,
        ensures
            self.horizontal_edges() == other.horizontal_edges(),
    {
        self.lemma_horizontal_edges();
        other.lemma_horizontal_edges();
        assert forall|edge: ArrayEdge<W>| self.horizontal_edges().contains(edge) <==> other.horizontal_edges().contains(
            edge,
        ) by {
            if self.horizontal_edges().contains(edge) {
                let j = choose|j: int| 0 <= j < self.horizontal_edges().len() && self.horizontal_edges()[j] == edge;
                assert(slots_with_top_edge(self@, self.horizontal_edges()[j]@).len() > 0);
                let k = choose|k: int|
                    0 <= k < other.horizontal_edges().len() && (#[trigger] other.horizontal_edges()[k])@ == edge@;
                other.horizontal_edges()[k].lemma_view_determines(edge);
            }
            if other.horizontal_edges().contains(edge) {
                let j = choose|j: int| 0 <= j < other.horizontal_edges().len() && other.horizontal_edges()[j] == edge;
                assert(slots_with_top_edge(other@, other.horizontal_edges()[j]@).len() > 0);
                let k = choose|k: int|
                    0 <= k < self.horizontal_edges().len() && (#[trigger] self.horizontal_edges()[k])@ == edge@;
                self.horizontal_edges()[k].lemma_view_determines(edge);
            }
        }
        crate::set::index::lemma_ascending_edges_are_determined(self.horizontal_edges(), other.horizontal_edges());
    }

    /// Number of different top edges that mosaics of the set show.
    pub fn horizontal_bucket_count(&self) -> (count: usize)
        ensures
            count == self.horizontal_edges().len(),
    {
        self.index_by_rotated_top_edge.bucket_count()
    }

    /// The top edge at position `j` of the ascending order.
    pub fn horizontal_bucket_edge(&self, j: usize) -> (edge: ArrayEdge<W>)
        requires
            j < self.horizontal_edges().len(),
        ensures
            edge == self.horizontal_edges()[j as int],
    {
        self.index_by_rotated_top_edge.buckets[j].edge
    }

    /// The mosaics that show `edge` on the horizontal side `side`, each in the
    /// rotation in which it does and with the number of its slot, by slot.
    pub fn query_horizontal(&self, side: HorizontalSide, edge: &ArrayEdge<W>) -> (found: Vec<
        (usize, RotatedRectangularMosaic<'_, W, H, M>),
    >)
        requires
            self.wf(),
        ensures
            views_match(found@, self@, spec_query_horizontal(self@, side, edge@)),
    {
        let turn = side.rotation_from_top();
        let mut found: Vec<(usize, RotatedRectangularMosaic<'_, W, H, M>)> = Vec::new();
        let ghost expected = spec_query_horizontal(self@, side, edge@);
        match self.index_by_rotated_top_edge.get(edge) {
            None => {},
            Some(entries) => {
                let mut i: usize = 0;
                while i < entries.len()
                    invariant
                        i <= entries@.len(),
                        self.wf(),
                        entries@ == self.index_by_rotated_top_edge.stored(edge@),
                        entries@ == slots_with_top_edge(self@, edge@),
                        expected == spec_query_horizontal(self@, side, edge@),
                        turn == side.spec_rotation_from_top(),
                        views_match(found@, self@, expected.take(i as int)),
                    decreases entries@.len() - i,
                {
                    let entry = entries[i];
                    assert(self.index_by_rotated_top_edge.stored(edge@)[i as int].index
                        < self.mosaics@.len());
                    let view = RotatedRectangularMosaic {
                        mosaic: &self.mosaics[entry.index],
                        rotation: entry.rotation.plus(turn),
                    };
                    let ghost earlier = found@;
                    found.push((entry.index, view));
                    proof {
                        assert(expected.take(i + 1) =~= expected.take(i as int).push(
                            expected[i as int],
                        ));
                        assert forall|k: int| 0 <= k < found@.len() implies {
                            &&& (#[trigger] found@[k]).0 == expected.take(i + 1)[k].index
                            &&& found@[k].0 < self@.len()
                            &&& *found@[k].1.mosaic == self@[expected.take(i + 1)[k].index as int]
                            &&& found@[k].1.rotation == expected.take(i + 1)[k].rotation
                        } by {
                            if k < i {
                                assert(found@[k] == earlier[k]);
                            }
                        }
                    }
                    i = i + 1;
                }
                proof {
                    assert(expected.take(i as int) =~= expected);
                }
            },
        }
        found
    }

    /// For each top edge of the set, in ascending order, the mosaics that
    /// show it on the horizontal side `side`, as `query_horizontal` finds them.
    pub fn iter_by_horizontal_edge(&self, side: HorizontalSide) -> (buckets: Vec<
        (ArrayEdge<W>, Vec<(usize, RotatedRectangularMosaic<'_, W, H, M>)>),
    >)
        requires
            self.wf(),
        ensures
            buckets@.len() == self.horizontal_edges().len(),
            forall|j: int|
                0 <= j < buckets@.len() ==> {
                    &&& (#[trigger] buckets@[j]).0 == self.horizontal_edges()[j]
                    &&& views_match(
                        buckets@[j].1@,
                        self@,
                        spec_query_horizontal(self@, side, self.horizontal_edges()[j]@),
                    )
                },
    {
        let count = self.horizontal_bucket_count();
        let mut buckets: Vec<
            (ArrayEdge<W>, Vec<(usize, RotatedRectangularMosaic<'_, W, H, M>)>),
        > = Vec::new();
        let mut j: usize = 0;
        while j < count
            invariant
                j <= count,
                count == self.horizontal_edges().len(),
                self.wf(),
                buckets@.len() == j,
                forall|i: int|
                    0 <= i < j ==> {
                        &&& (#[trigger] buckets@[i]).0 == self.horizontal_edges()[i]
                        &&& views_match(
                            buckets@[i].1@,
                            self@,
                            spec_query_horizontal(self@, side, self.horizontal_edges()[i]@),
                        )
                    },
            decreases count - j,
        {
            let edge = self.horizontal_bucket_edge(j);
            let found = self.query_horizontal(side, &edge);
            buckets.push((edge, found));
            j = j + 1;
        }
        buckets
    }

    /// Two entries of one bucket that show the same grid are two of the
    /// mosaics in their rotations that show the same grid.
    proof fn lemma_collision_breaks_distinctness(&self, j: int, p: int, q: int)
        requires
            self.wf(),
            0 <= j < self.index_by_rotated_top_edge.buckets@.len(),
            0 <= p < q < self.index_by_rotated_top_edge.buckets@[j].entries@.len(),
            slots_collide(
                self@,
                self.index_by_rotated_top_edge.buckets@[j].entries@[p],
                self.index_by_rotated_top_edge.buckets@[j].entries@[q],
            ),
        ensures
            !orbits_distinct(self@),
    {
        let index = self.index_by_rotated_top_edge;
        let key = index.key(j);
        let keys = all_top_edges(self@);
        let slots = all_rotated_slots(self@.len());
        self.lemma_len_fits();
        assert(index.holds_at(j, key));
        index.lemma_stored_at(j, key);
        assert(index.stored(key) == filed_under(keys, slots, key));
        let (k1, k2) = lemma_filed_under_in_order(keys, slots, key, p, q);
        lemma_orbit_member_is_grid_of_slot(self@, k1);
        lemma_orbit_member_is_grid_of_slot(self@, k2);
        assert(orbit_member(self@, k1) == orbit_member(self@, k2));
    }

    /// Where no two entries of one bucket show the same grid, no two of the
    /// mosaics in their rotations do: those that do show the same top edge,
    /// and so stand in one bucket.
    proof fn lemma_no_collision_is_distinctness(&self)
        requires
            self.wf(),
            forall|j: int, p: int, q: int|
                0 <= j < self.index_by_rotated_top_edge.buckets@.len() && 0 <= p < q
                    < self.index_by_rotated_top_edge.buckets@[j].entries@.len()
                    ==> !#[trigger] slots_collide(
                    self@,
                    self.index_by_rotated_top_edge.buckets@[j].entries@[p],
                    self.index_by_rotated_top_edge.buckets@[j].entries@[q],
                ),
        ensures
            orbits_distinct(self@),
    {
        let index = self.index_by_rotated_top_edge;
        let keys = all_top_edges(self@);
        let slots = all_rotated_slots(self@.len());
        self.lemma_len_fits();
        assert forall|k1: int, k2: int| 0 <= k1 < k2 < 2 * self@.len() implies #[trigger] orbit_member(
            self@,
            k1,
        ) != #[trigger] orbit_member(self@, k2) by {
            if orbit_member(self@, k1) == orbit_member(self@, k2) {
                let first = rotated_slot(k1);
                let second = rotated_slot(k2);
                lemma_orbit_member_is_grid_of_slot(self@, k1);
                lemma_orbit_member_is_grid_of_slot(self@, k2);
                assert(slots_collide(self@, first, second));
                self.lemma_sizes();
                lemma_colliding_slots_share_their_top_edge(self@, first, second);
                let key = keys[k1];
                assert(keys[k2] == key);
                assert(slots[k1] == first && slots[k2] == second);
                lemma_filed_under_contains(keys, slots, key, first);
                lemma_filed_under_contains(keys, slots, key, second);
                let filed = filed_under(keys, slots, key);
                assert(index.stored(key) == filed);
                let p = choose|p: int| 0 <= p < filed.len() && filed[p] == first;
                let q = choose|q: int| 0 <= q < filed.len() && filed[q] == second;
                let j = choose|j: int| index.holds_at(j, key);
                index.lemma_stored_at(j, key);
                assert(first != second);
                if p < q {
                    assert(slots_collide(
                        self@,
                        index.buckets@[j].entries@[p],
                        index.buckets@[j].entries@[q],
                    ));
                } else {
                    assert(slots_collide(
                        self@,
                        index.buckets@[j].entries@[q],
                        index.buckets@[j].entries@[p],
                    ));
                }
            }
        }
    }

    /// Two entries of the bucket at position `j` that show the same grid, if
    /// there are two such.
    fn collides_in_bucket(&self, j: usize) -> (collides: Option<(usize, usize)>)
        requires
            self.wf(),
            j < self.index_by_rotated_top_edge.buckets@.len(),
        ensures
            match collides {
                Some((p, q)) => p < q < self.index_by_rotated_top_edge.buckets@[j as int].entries@.len()
                    && slots_collide(
                    self@,
                    self.index_by_rotated_top_edge.buckets@[j as int].entries@[p as int],
                    self.index_by_rotated_top_edge.buckets@[j as int].entries@[q as int],
                ),
                None => forall|p: int, q: int|
                    0 <= p < q < self.index_by_rotated_top_edge.buckets@[j as int].entries@.len()
                        ==> !#[trigger] slots_collide(
                        self@,
                        self.index_by_rotated_top_edge.buckets@[j as int].entries@[p],
                        self.index_by_rotated_top_edge.buckets@[j as int].entries@[q],
                    ),
            },
    {
        let entries = &self.index_by_rotated_top_edge.buckets[j].entries;
        proof {
            let key = self.index_by_rotated_top_edge.key(j as int);
            assert(self.index_by_rotated_top_edge.holds_at(j as int, key));
            self.index_by_rotated_top_edge.lemma_stored_at(j as int, key);
            assert forall|i: int| 0 <= i < entries@.len() implies (#[trigger] entries@[i]).index
                < self.mosaics@.len() by {
                assert(self.index_by_rotated_top_edge.stored(key)[i].index < self.mosaics@.len());
            }
        }
        let count = entries.len();
        let mut p: usize = 0;
        while p < count
            invariant
                p <= count,
                count == entries@.len(),
                j < self.index_by_rotated_top_edge.buckets@.len(),
                *entries == self.index_by_rotated_top_edge.buckets@[j as int].entries,
                forall|i: int| 0 <= i < entries@.len() ==> (#[trigger] entries@[i]).index
                    < self.mosaics@.len(),
                forall|a: int, b: int|
                    0 <= a < b < count && a < p ==> !#[trigger] slots_collide(
                        self@,
                        entries@[a],
                        entries@[b],
                    ),
            decreases count - p,
        {
            let first = entries[p];
            let view = RotatedRectangularMosaic {
                mosaic: &self.mosaics[first.index],
                rotation: first.rotation,
            };
            let mut q: usize = p + 1;
            while q < count
                invariant
                    p < q <= count,
                    count == entries@.len(),
                    j < self.index_by_rotated_top_edge.buckets@.len(),
                    *entries == self.index_by_rotated_top_edge.buckets@[j as int].entries,
                    first == entries@[p as int],
                    *view.mosaic == self@[first.index as int],
                    view.rotation == first.rotation,
                    forall|i: int| 0 <= i < entries@.len() ==> (#[trigger] entries@[i]).index
                        < self.mosaics@.len(),
                    forall|a: int, b: int|
                        0 <= a < b < count && a < p ==> !#[trigger] slots_collide(
                            self@,
                            entries@[a],
                            entries@[b],
                        ),
                    forall|b: int|
                        p < b < q ==> !#[trigger] slots_collide(self@, entries@[p as int], entries@[b]),
                decreases count - q,
            {
                let second = entries[q];
                let partner = RotatedRectangularMosaic {
                    mosaic: &self.mosaics[second.index],
                    rotation: second.rotation,
                };
                let same = tiles_equal(&view, &partner);
                proof {
                    lemma_same_tiles_is_same_grid(&view, &partner);
                }
                if same {
                    return Some((p, q));
                }
                q = q + 1;
            }
            p = p + 1;
        }
        None
    }

    /// Whether no two mosaics of the set, each seen in each of its two
    /// rotations, show the same grid. Mosaics that show the same grid show
    /// the same top edge, so only those filed under one edge are held
    /// against each other.
    pub fn is_distinct(&self) -> (distinct: bool)
        requires
            self.wf(),
        ensures
            distinct == orbits_distinct(self@),
    {
        let count = self.index_by_rotated_top_edge.bucket_count();
        let mut j: usize = 0;
        while j < count
            invariant
                j <= count,
                count == self.index_by_rotated_top_edge.buckets@.len(),
                self.wf(),
                forall|i: int, p: int, q: int|
                    0 <= i < j && 0 <= p < q < self.index_by_rotated_top_edge.buckets@[i].entries@.len()
                        ==> !#[trigger] slots_collide(
                        self@,
                        self.index_by_rotated_top_edge.buckets@[i].entries@[p],
                        self.index_by_rotated_top_edge.buckets@[i].entries@[q],
                    ),
            decreases count - j,
        {
            match self.collides_in_bucket(j) {
                Some((p, q)) => {
                    proof {
                        self.lemma_collision_breaks_distinctness(j as int, p as int, q as int);
                    }
                    return false;
                },
                None => {},
            }
            j = j + 1;
        }
        proof {
            self.lemma_no_collision_is_distinctness();
        }
        true
    }

    /// States that the mosaics of the set in their two rotations show twice
    /// as many grids as there are mosaics. This holds of the sets in which no
    /// two of them show the same grid, and of no others.
    pub fn assert_distinct(&self)
        requires
            orbits_distinct(self@),
        ensures
            orbit(self@).finite(),
            orbit(self@).len() == 2 * self@.len(),
    {
        proof {
            lemma_distinct_orbits_have_full_size(self@);
        }
    }
}

} // verus!
