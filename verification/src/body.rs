//! Bodies: named parts with slots where items are worn or held. An item
//! occupies every slot of the types it needs; the first of them holds the
//! item itself, the others a proxy of it.
use vstd::prelude::*;
use crate::components::SlotType;
use crate::error::{Error, GameError};

verus! {

/// An item in a slot, by id; a proxy stands in the extra slots of an item
/// that needs several.
#[derive(Clone, Copy, PartialEq, Eq, Structural, Debug)]
pub struct Held {
    pub id: usize,
    pub proxy: bool,
}

/// A slot of a given type, empty or holding an item.
#[derive(Clone, Copy, PartialEq, Eq, Structural, Debug)]
pub struct ItemSlot {
    pub slot_type: SlotType,
    pub item: Option<Held>,
}

pub struct BodyPart {
    pub name: String,
    pub slots: Vec<ItemSlot>,
}

/// Slot types have to be unique over the body.
pub struct Body {
    pub parts: Vec<BodyPart>,
}

/// The slots of every part, part by part.
pub open spec fn slot_view(b: &Body) -> Seq<Seq<ItemSlot>> {
    Seq::new(b.parts@.len(), |i: int| b.parts@[i].slots@)
}

/// The names of the parts.
pub open spec fn part_names(b: &Body) -> Seq<Seq<char>> {
    Seq::new(b.parts@.len(), |i: int| b.parts@[i].name@)
}

/// How many of the first `k` slots have type `t`.
pub open spec fn count_in(slots: Seq<ItemSlot>, t: SlotType, k: int) -> nat
    decreases k,
{
    if k <= 0 {
        0
    } else {
        count_in(slots, t, k - 1) + if slots[k - 1].slot_type == t { 1nat } else { 0nat }
    }
}

/// How many slots of the first `k` parts have type `t`.
pub open spec fn count_parts(ps: Seq<Seq<ItemSlot>>, t: SlotType, k: int) -> nat
    decreases k,
{
    if k <= 0 {
        0
    } else {
        count_parts(ps, t, k - 1) + count_in(ps[k - 1], t, ps[k - 1].len() as int)
    }
}

/// Body slots matching the first `k` slot types an item needs, each counted
/// once per type that names it.
pub open spec fn total_matches(ps: Seq<Seq<ItemSlot>>, needs: Seq<SlotType>, k: int) -> nat
    decreases k,
{
    if k <= 0 {
        0
    } else {
        total_matches(ps, needs, k - 1) + count_parts(ps, needs[k - 1], ps.len() as int)
    }
}

/// The body can take an item needing the slot types `needs`: it needs at
/// least one, and the body offers as many matching slots as it needs.
pub open spec fn spec_can_equip(ps: Seq<Seq<ItemSlot>>, needs: Seq<SlotType>) -> bool {
    needs.len() > 0 && total_matches(ps, needs, needs.len() as int) >= needs.len()
}

/// The slots with every slot of type `t` now holding `held`.
pub open spec fn put_in_slots(slots: Seq<ItemSlot>, t: SlotType, held: Held) -> Seq<ItemSlot> {
    Seq::new(
        slots.len(),
        |j: int| if slots[j].slot_type == t { ItemSlot { slot_type: t, item: Some(held) } } else { slots[j] },
    )
}

/// Every part's slots of type `t` now holding `held`.
pub open spec fn put_all(ps: Seq<Seq<ItemSlot>>, t: SlotType, held: Held) -> Seq<Seq<ItemSlot>> {
    Seq::new(ps.len(), |i: int| put_in_slots(ps[i], t, held))
}

/// The items, not proxies, in the first `k` slots of type `t`, in order.
pub open spec fn taken_from_slots(slots: Seq<ItemSlot>, t: SlotType, k: int) -> Seq<Held>
    decreases k,
{
    if k <= 0 {
        Seq::empty()
    } else {
        let prev = taken_from_slots(slots, t, k - 1);
        match slots[k - 1].item {
            Some(h) => if slots[k - 1].slot_type == t && !h.proxy {
                prev.push(h)
            } else {
                prev
            },
            None => prev,
        }
    }
}

/// The items, not proxies, in the slots of type `t` of the first `k` parts.
pub open spec fn taken_from_parts(ps: Seq<Seq<ItemSlot>>, t: SlotType, k: int) -> Seq<Held>
    decreases k,
{
    if k <= 0 {
        Seq::empty()
    } else {
        taken_from_parts(ps, t, k - 1) + taken_from_slots(ps[k - 1], t, ps[k - 1].len() as int)
    }
}

/// The slots and the items taken off after placing item `id` for its first
/// `k` slot types: the first type gets the item, the others proxies.
pub open spec fn equip_state(ps: Seq<Seq<ItemSlot>>, id: usize, needs: Seq<SlotType>, k: int) -> (
    Seq<Seq<ItemSlot>>,
    Seq<Held>,
)
    decreases k,
{
    if k <= 0 {
        (ps, Seq::empty())
    } else {
        let prev = equip_state(ps, id, needs, k - 1);
        let held = Held { id, proxy: k - 1 != 0 };
        (
            put_all(prev.0, needs[k - 1], held),
            prev.1 + taken_from_parts(prev.0, needs[k - 1], prev.0.len() as int),
        )
    }
}

proof fn lemma_count_in_mono(slots: Seq<ItemSlot>, t: SlotType, j: int, k: int)
    requires
        0 <= j <= k,
    ensures
        count_in(slots, t, j) <= count_in(slots, t, k),
    decreases k,
{
    if j < k {
        lemma_count_in_mono(slots, t, j, k - 1);
    }
}

proof fn lemma_count_parts_mono(ps: Seq<Seq<ItemSlot>>, t: SlotType, j: int, k: int)
    requires
        0 <= j <= k,
    ensures
        count_parts(ps, t, j) <= count_parts(ps, t, k),
    decreases k,
{
    if j < k {
        lemma_count_parts_mono(ps, t, j, k - 1);
    }
}

proof fn lemma_total_mono(ps: Seq<Seq<ItemSlot>>, needs: Seq<SlotType>, j: int, k: int)
    requires
        0 <= j <= k,
    ensures
        total_matches(ps, needs, j) <= total_matches(ps, needs, k),
    decreases k,
{
    if j < k {
        lemma_total_mono(ps, needs, j, k - 1);
    }
}

/// What equipping leaves in the slots: every slot of a type the item needs
/// holds the item (or a proxy of it), and every other slot is as it was.
pub proof fn law_equip_fills_needed_slots(ps: Seq<Seq<ItemSlot>>, id: usize, needs: Seq<SlotType>, k: int)
    requires
        0 <= k <= needs.len(),
    ensures
        equip_state(ps, id, needs, k).0.len() == ps.len(),
        forall|i: int| 0 <= i < ps.len() ==> (#[trigger] equip_state(ps, id, needs, k).0[i]).len() == ps[i].len(),
        forall|i: int, j: int|
            0 <= i < ps.len() && 0 <= j < ps[i].len() ==> {
                let after = #[trigger] equip_state(ps, id, needs, k).0[i][j];
                &&& after.slot_type == ps[i][j].slot_type
                &&& needs.take(k).contains(ps[i][j].slot_type) ==> (after.item is Some && after.item->0.id == id)
                &&& !needs.take(k).contains(ps[i][j].slot_type) ==> after == ps[i][j]
            },
    decreases k,
{
    if k > 0 {
        law_equip_fills_needed_slots(ps, id, needs, k - 1);
        let prev = equip_state(ps, id, needs, k - 1).0;
        let cur = equip_state(ps, id, needs, k).0;
        assert forall|i: int, j: int| 0 <= i < ps.len() && 0 <= j < ps[i].len() implies {
            let after = #[trigger] cur[i][j];
            &&& after.slot_type == ps[i][j].slot_type
            &&& needs.take(k).contains(ps[i][j].slot_type) ==> (after.item is Some && after.item->0.id == id)
            &&& !needs.take(k).contains(ps[i][j].slot_type) ==> after == ps[i][j]
        } by {
            let t = ps[i][j].slot_type;
            let now = needs.take(k);
            let before = needs.take(k - 1);
            assert(prev[i][j].slot_type == t);
            if now.contains(t) && t != needs[k - 1] {
                let w = choose|w: int| 0 <= w < now.len() && now[w] == t;
                assert(before[w] == t);
            }
            if before.contains(t) {
                let w = choose|w: int| 0 <= w < before.len() && before[w] == t;
                assert(now[w] == t);
            }
            if t == needs[k - 1] {
                assert(now[k - 1] == t);
            }
        }
    }
}

impl Body {
    /// A human: head, torso, two arms (the left with the secondary hand, the
    /// right with the primary hand) and two legs.
    pub fn human_body() -> (b: Body)
        ensures
            b.parts@.len() == 6,
            b.parts@[0].name@ == "Head"@ && b.parts@[0].slots@ == Seq::<ItemSlot>::empty(),
            b.parts@[1].name@ == "Torso"@ && b.parts@[1].slots@ == Seq::<ItemSlot>::empty(),
            b.parts@[2].name@ == "Left arm"@ && b.parts@[2].slots@ == seq![
                ItemSlot { slot_type: SlotType::SecondaryHand, item: None },
            ],
            b.parts@[3].name@ == "Right arm"@ && b.parts@[3].slots@ == seq![
                ItemSlot { slot_type: SlotType::PrimaryHand, item: None },
            ],
            b.parts@[4].name@ == "Left leg"@ && b.parts@[4].slots@ == Seq::<ItemSlot>::empty(),
            b.parts@[5].name@ == "Right leg"@ && b.parts@[5].slots@ == Seq::<ItemSlot>::empty(),
    {
        let mut parts: Vec<BodyPart> = Vec::new();
        parts.push(BodyPart { name: "Head".to_string(), slots: Vec::new() });
        parts.push(BodyPart { name: "Torso".to_string(), slots: Vec::new() });
        let mut left = Vec::new();
        left.push(ItemSlot { slot_type: SlotType::SecondaryHand, item: None });
        parts.push(BodyPart { name: "Left arm".to_string(), slots: left });
        let mut right = Vec::new();
        right.push(ItemSlot { slot_type: SlotType::PrimaryHand, item: None });
        parts.push(BodyPart { name: "Right arm".to_string(), slots: right });
        parts.push(BodyPart { name: "Left leg".to_string(), slots: Vec::new() });
        parts.push(BodyPart { name: "Right leg".to_string(), slots: Vec::new() });
        Body { parts }
    }

    /// Whether an item needing the slot types `needs` can be equipped (see
    /// [`spec_can_equip`]).
    pub fn can_equip(&self, needs: &Vec<SlotType>) -> (r: bool)
        ensures
            r == spec_can_equip(slot_view(self), needs@),
    {
        let ghost ps = slot_view(self);
        let n = needs.len();
        let mut unsatisfied = n;
        let mut i: usize = 0;
        while i < n
            invariant
                ps == slot_view(self),
                n == needs@.len(),
                i <= n,
                unsatisfied + total_matches(ps, needs@, i as int) == n,
                unsatisfied > 0 || n == 0,
            decreases n - i,
        {
            let st = needs[i];
            let mut p: usize = 0;
            while p < self.parts.len()
                invariant
                    ps == slot_view(self),
                    n == needs@.len(),
                    i < n,
                    st == needs@[i as int],
                    p <= ps.len(),
                    unsatisfied + total_matches(ps, needs@, i as int) + count_parts(ps, st, p as int) == n,
                    unsatisfied > 0,
                decreases ps.len() - p,
            {
                let slots = &self.parts[p].slots;
                assert(slots@ == ps[p as int]);
                let mut s: usize = 0;
                while s < slots.len()
                    invariant
                        ps == slot_view(self),
                        n == needs@.len(),
                        i < n,
                        st == needs@[i as int],
                        p < ps.len(),
                        slots@ == ps[p as int],
                        s <= slots@.len(),
                        unsatisfied + total_matches(ps, needs@, i as int) + count_parts(ps, st, p as int) + count_in(
                            slots@,
                            st,
                            s as int,
                        ) == n,
                        unsatisfied > 0,
                    decreases slots@.len() - s,
                {
                    if st == slots[s].slot_type {
                        unsatisfied = unsatisfied - 1;
                    }
                    if unsatisfied == 0 {
                        proof {
                            lemma_count_in_mono(slots@, st, s + 1, slots@.len() as int);
                            lemma_count_parts_mono(ps, st, p + 1, ps.len() as int);
                            lemma_total_mono(ps, needs@, i + 1, n as int);
                        }
                        return true;
                    }
                    s = s + 1;
                }
                p = p + 1;
            }
            i = i + 1;
        }
        false
    }

    /// Equips item `id`, which needs the slot types `needs`: every slot of
    /// those types takes the item (the first type) or a proxy of it (the
    /// others), and the items they held, proxies left out, are returned in
    /// the order they came off. Fails, changing nothing, when the item
    /// cannot be equipped (see [`spec_can_equip`]).
    pub fn equip(&mut self, id: usize, needs: &Vec<SlotType>) -> (r: Result<Vec<Held>, GameError>)
        ensures
            part_names(final(self)) == part_names(old(self)),
            spec_can_equip(slot_view(old(self)), needs@) ==> {
                &&& r matches Ok(taken) && taken@ == equip_state(
                    slot_view(old(self)),
                    id,
                    needs@,
                    needs@.len() as int,
                ).1
                &&& slot_view(final(self)) == equip_state(slot_view(old(self)), id, needs@, needs@.len() as int).0
            },
            !spec_can_equip(slot_view(old(self)), needs@) ==> {
                &&& r matches Err(e) && e.error == Error::UnsolvableSituation && e.message@ == "Cannot equip item"@
                &&& slot_view(final(self)) == slot_view(old(self))
            },
    {
        if !self.can_equip(needs) {
            return Err(GameError::new(Error::UnsolvableSituation, "Cannot equip item"));
        }
        let ghost ps0 = slot_view(self);
        let ghost names0 = part_names(self);
        let mut removed: Vec<Held> = Vec::new();
        let mut k: usize = 0;
        while k < needs.len()
            invariant
                k <= needs@.len(),
                part_names(self) == names0,
                slot_view(self) == equip_state(ps0, id, needs@, k as int).0,
                removed@ == equip_state(ps0, id, needs@, k as int).1,
            decreases needs@.len() - k,
        {
            let st = needs[k];
            let held = Held { id, proxy: k != 0 };
            let ghost ps = slot_view(self);
            let mut new_parts: Vec<BodyPart> = Vec::new();
            let mut p: usize = 0;
            while p < self.parts.len()
                invariant
                    ps == slot_view(self),
                    names0 == part_names(self),
                    p <= ps.len(),
                    new_parts@.len() == p,
                    forall|q: int| 0 <= q < p ==> (#[trigger] new_parts@[q]).slots@ == put_in_slots(ps[q], st, held),
                    forall|q: int| 0 <= q < p ==> (#[trigger] new_parts@[q]).name@ == names0[q],
                    removed@ == equip_state(ps0, id, needs@, k as int).1 + taken_from_parts(ps, st, p as int),
                decreases ps.len() - p,
            {
                let part = &self.parts[p];
                assert(part.slots@ == ps[p as int]);
                let mut new_slots: Vec<ItemSlot> = Vec::new();
                let mut s: usize = 0;
                while s < part.slots.len()
                    invariant
                        part.slots@ == ps[p as int],
                        p < ps.len(),
                        s <= part.slots@.len(),
                        new_slots@ == put_in_slots(part.slots@, st, held).take(s as int),
                        removed@ == equip_state(ps0, id, needs@, k as int).1 + taken_from_parts(ps, st, p as int)
                            + taken_from_slots(part.slots@, st, s as int),
                    decreases part.slots@.len() - s,
                {
                    let slot = part.slots[s];
                    if slot.slot_type == st {
                        match slot.item {
                            Some(h) => {
                                if !h.proxy {
                                    removed.push(h);
                                }
                            },
                            None => {},
                        }
                        new_slots.push(ItemSlot { slot_type: st, item: Some(held) });
                    } else {
                        new_slots.push(slot);
                    }
                    s = s + 1;
                    assert(new_slots@ =~= put_in_slots(part.slots@, st, held).take(s as int));
                    assert(removed@ =~= equip_state(ps0, id, needs@, k as int).1 + taken_from_parts(ps, st, p as int)
                        + taken_from_slots(part.slots@, st, s as int));
                }
                assert(new_slots@ =~= put_in_slots(part.slots@, st, held));
                new_parts.push(BodyPart { name: part.name.clone(), slots: new_slots });
                p = p + 1;
                assert(removed@ =~= equip_state(ps0, id, needs@, k as int).1 + taken_from_parts(ps, st, p as int));
            }
            self.parts = new_parts;
            proof {
                assert(slot_view(self) =~= put_all(ps, st, held));
                assert(part_names(self) =~= names0);
            }
            k = k + 1;
        }
        Ok(removed)
    }
}

} // verus!
