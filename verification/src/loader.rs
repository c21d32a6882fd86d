//! The component registry.
//!
//! Holds the component currently active in each slot. Swapping is replacing
//! one: calls already in flight keep what they started with and finish on the
//! old code, while the next call picks up the new one.
use vstd::prelude::*;

use crate::revisions::slot_views;
use crate::slot::{slot_key, Slot, SlotView};
use crate::table::{sorted_keys, Table};

verus! {

/// A component that is ready to be called.
#[derive(Debug)]
pub struct LoadedComponent<C> {
    /// The slot it fills.
    pub slot: Slot,
    /// The revision it was built as.
    pub revision: u64,
    /// The compiled component.
    pub component: C,
}

/// The component of each slot.
pub struct Loader<C> {
    slots: Table<LoadedComponent<C>>,
}

/// Slots with their revisions, as text.
pub open spec fn active_views(items: Seq<(Slot, u64)>) -> Seq<(SlotView, u64)> {
    items.map_values(|e: (Slot, u64)| (e.0@, e.1))
}

/// The slots of these keys with their revisions.
pub open spec fn active_of<C>(keys: Seq<Seq<char>>, held: Map<Seq<char>, LoadedComponent<C>>) -> Seq<
    (SlotView, u64),
> {
    keys.map_values(|k: Seq<char>| (held[k].slot@, held[k].revision))
}

/// The tools among the slots of these keys.
pub open spec fn tools_of<C>(keys: Seq<Seq<char>>, held: Map<Seq<char>, LoadedComponent<C>>) -> Seq<
    SlotView,
>
    decreases keys.len(),
{
    if keys.len() == 0 {
        Seq::empty()
    } else if held[keys.last()].slot@ is Tool {
        tools_of(keys.drop_last(), held).push(held[keys.last()].slot@)
    } else {
        tools_of(keys.drop_last(), held)
    }
}

impl<C> View for Loader<C> {
    type V = Map<Seq<char>, LoadedComponent<C>>;

    closed spec fn view(&self) -> Map<Seq<char>, LoadedComponent<C>> {
        self.slots@
    }
}

impl<C> Loader<C> {
    /// Whether each component is held under the key of its slot.
    #[verifier::type_invariant]
    spec fn well_formed(self) -> bool {
        forall|k: Seq<char>| #[trigger]
            self.slots@.contains_key(k) ==> slot_key(self.slots@[k].slot@) == k
    }

    /// Nothing loaded yet.
    pub fn new() -> (r: Loader<C>)
        ensures
            r@ == Map::<Seq<char>, LoadedComponent<C>>::empty(),
    {
        Loader { slots: Table::new() }
    }

    /// The component of a slot, if one is loaded.
    pub fn get(&self, slot: &Slot) -> (r: Option<&LoadedComponent<C>>)
        ensures
            match r {
                Some(c) => self@.contains_key(slot_key(slot@)) && *c == self@[slot_key(slot@)]
                    && slot_key(c.slot@) == slot_key(slot@),
                None => !self@.contains_key(slot_key(slot@)),
            },
    {
        proof {
            use_type_invariant(self);
        }
        let key = slot.key();
        self.slots.get(key.as_str())
    }

    /// Puts a component in its slot and hands back what was there.
    pub fn install(&mut self, component: LoadedComponent<C>) -> (r: Option<LoadedComponent<C>>)
        ensures
            final(self)@ == old(self)@.insert(slot_key(component.slot@), component),
            r == if old(self)@.contains_key(slot_key(component.slot@)) {
                Some(old(self)@[slot_key(component.slot@)])
            } else {
                None
            },
    {
        proof {
            use_type_invariant(&*self);
        }
        let key = component.slot.key();
        let mut table: Table<LoadedComponent<C>> = Table::new();
        std::mem::swap(&mut table, &mut self.slots);
        let was = table.insert(key, component);
        self.slots = table;
        was
    }

    /// Empties a slot.
    pub fn remove(&mut self, slot: &Slot) -> (r: Option<LoadedComponent<C>>)
        ensures
            final(self)@ == old(self)@.remove(slot_key(slot@)),
            r == if old(self)@.contains_key(slot_key(slot@)) {
                Some(old(self)@[slot_key(slot@)])
            } else {
                None
            },
    {
        proof {
            use_type_invariant(&*self);
        }
        let key = slot.key();
        let mut table: Table<LoadedComponent<C>> = Table::new();
        std::mem::swap(&mut table, &mut self.slots);
        let was = table.remove(key.as_str());
        self.slots = table;
        was
    }

    /// Every active slot and its revision, by the slot's key.
    pub fn active(&self) -> (r: Vec<(Slot, u64)>)
        ensures
            active_views(r@) == active_of(sorted_keys(self@.dom()), self@),
    {
        let ghost keys = self.slots.key_list();
        let ghost all = active_of(keys, self@);
        let mut out: Vec<(Slot, u64)> = Vec::new();
        assert(active_views(out@) =~= all.take(0));
        let n: usize = self.slots.len();
        for i in 0..n
            invariant
                n == keys.len(),
                keys == self.slots.key_list(),
                all == active_of(keys, self@),
                active_views(out@) == all.take(i as int),
        {
            let ghost had = out@;
            let c = self.slots.value_at(i);
            out.push((c.slot.clone(), c.revision));
            proof {
                assert(active_views(out@) =~= active_views(had).push(all[i as int]));
                assert(all.take(i + 1) =~= all.take(i as int).push(all[i as int]));
            }
        }
        assert(all.take(n as int) =~= all);
        out
    }

    /// Every tool that is loaded, by the slot's key.
    pub fn tools(&self) -> (r: Vec<Slot>)
        ensures
            slot_views(r@) == tools_of(sorted_keys(self@.dom()), self@),
    {
        let ghost keys = self.slots.key_list();
        let mut out: Vec<Slot> = Vec::new();
        assert(slot_views(out@) =~= tools_of(keys.take(0), self@));
        let n: usize = self.slots.len();
        for i in 0..n
            invariant
                n == keys.len(),
                keys == self.slots.key_list(),
                slot_views(out@) == tools_of(keys.take(i as int), self@),
        {
            let ghost had = out@;
            let c = self.slots.value_at(i);
            proof {
                assert(keys.take(i + 1).drop_last() =~= keys.take(i as int));
                assert(keys.take(i + 1).last() == keys[i as int]);
            }
            if let Slot::Tool(_) = &c.slot {
                let slot = c.slot.clone();
                out.push(slot);
                assert(slot_views(out@) =~= slot_views(had).push(slot@));
            }
        }
        assert(keys.take(n as int) =~= keys);
        out
    }
}

/// Swapping one slot leaves every other as it is.
pub proof fn law_swaps_touch_one_slot<C>(
    held: Map<Seq<char>, LoadedComponent<C>>,
    component: LoadedComponent<C>,
    key: Seq<char>,
)
    requires
        key != slot_key(component.slot@),
    ensures
        held.insert(slot_key(component.slot@), component).contains_key(key) == held.contains_key(
            key,
        ),
        held.contains_key(key) ==> held.insert(slot_key(component.slot@), component)[key]
            == held[key],
{
}

/// The tools that are loaded are the tools among the slots that are filled, each as
/// often as it fills one, and each slot runs the revision that fills it.
pub proof fn law_loaded_tools_are_the_tools_among_the_slots<C>(
    before: Seq<Seq<char>>,
    key: Seq<char>,
    after: Seq<Seq<char>>,
    held: Map<Seq<char>, LoadedComponent<C>>,
)
    ensures
        tools_of(before + seq![key] + after, held) == tools_of(before, held) + (
        if held[key].slot@ is Tool {
            seq![held[key].slot@]
        } else {
            Seq::empty()
        }) + tools_of(after, held),
        active_of(before + seq![key] + after, held).len() == before.len() + 1 + after.len(),
        active_of(before + seq![key] + after, held)[before.len() as int].0 == held[key].slot@,
        active_of(before + seq![key] + after, held)[before.len() as int].1 == held[key].revision,
{
    let one = seq![key];
    lemma_tools_add(before + one, after, held);
    lemma_tools_add(before, one, held);
    assert(one.drop_last() =~= Seq::<Seq<char>>::empty());
    assert(tools_of(Seq::<Seq<char>>::empty(), held) == Seq::<SlotView>::empty());
    if held[key].slot@ is Tool {
        assert(tools_of(one, held) =~= seq![held[key].slot@]);
    } else {
        assert(tools_of(one, held) =~= Seq::<SlotView>::empty());
    }
    assert((before + one + after)[before.len() as int] == key);
}

proof fn lemma_tools_add<C>(
    a: Seq<Seq<char>>,
    b: Seq<Seq<char>>,
    held: Map<Seq<char>, LoadedComponent<C>>,
)
    ensures
        tools_of(a + b, held) == tools_of(a, held) + tools_of(b, held),
    decreases b.len(),
{
    if b.len() == 0 {
        assert(a + b =~= a);
        assert(tools_of(a, held) + tools_of(b, held) =~= tools_of(a, held));
    } else {
        assert((a + b).drop_last() =~= a + b.drop_last());
        assert((a + b).last() == b.last());
        lemma_tools_add(a, b.drop_last(), held);
        let s = held[b.last()].slot@;
        if s is Tool {
            assert((tools_of(a, held) + tools_of(b.drop_last(), held)).push(s) =~= tools_of(a, held)
                + tools_of(b.drop_last(), held).push(s));
        }
    }
}

} // verus!
