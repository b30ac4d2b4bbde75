//! Per-type slot storage: a generational arena of node slots together with an
//! index from external identifiers to slots.
//!
//! A [`NodeGroup`] owns every stored value of one concrete node type. Each
//! value sits in a slot addressed by a [`SlotId`]; a slot is either still
//! reserved (allocated for a value that is not built yet, to break cycles
//! during construction) or filled. A secondary index maps external
//! identifiers to slots, so a value can be found again by the identifier it
//! was inserted or reserved under.

use vstd::prelude::*;
use vstd::std_specs::hash::obeys_key_model;
use vstd::hash_map::HashMapWithView;
use core::hash::Hash;
use core::marker::PhantomData;
use crate::bounds::NodeType;

verus! {

/// The identity of one slot: its position in the arena together with the
/// generation the slot had when the handle was made. A slot's generation is
/// bumped when the slot is emptied, so handles to removed values stop
/// resolving instead of reading a later occupant of the same position.
#[derive(Clone, Copy, PartialEq, Eq, Hash, Debug, Structural)]
pub struct SlotId {
    pub index: usize,
    pub generation: u64,
}

/// A unique key for accessing a node of type `T`.
///
/// A key never grants access by itself; it is resolved through the group or
/// store that produced it, and resolves to nothing once its slot is removed.
#[derive(Debug, Hash)]
pub struct Key<T> {
    slot: SlotId,
    node_type: PhantomData<T>,
}

impl<T> Key<T> {
    /// The slot identity this key refers to; keys are equal exactly when
    /// their slot identities are.
    pub closed spec fn spec_slot(self) -> SlotId {
        self.slot
    }

    pub(crate) fn new(slot: SlotId) -> (r: Self)
        ensures
            r.spec_slot() == slot,
    {
        Key { slot, node_type: PhantomData }
    }

    /// The slot identity this key refers to.
    pub fn slot(&self) -> (r: SlotId)
        ensures
            r == self.spec_slot(),
    {
        self.slot
    }

    /// Two keys of one type are equal exactly when they refer to the same
    /// slot.
    pub proof fn lemma_eq_is_slot_eq(k1: Self, k2: Self)
        ensures
            (k1 == k2) <==> k1.spec_slot() == k2.spec_slot(),
    {
    }
}

impl<T> Clone for Key<T> {
    fn clone(&self) -> (r: Self)
        ensures
            r == *self,
    {
        Key { slot: self.slot, node_type: PhantomData }
    }
}

impl<T> Copy for Key<T> {}

impl<T> PartialEq for Key<T> {
    fn eq(&self, other: &Self) -> (r: bool)
        ensures
            r <==> *self == *other,
    {
        self.slot == other.slot
    }
}

impl<T> vstd::std_specs::cmp::PartialEqSpecImpl for Key<T> {
    open spec fn obeys_eq_spec() -> bool {
        true
    }

    open spec fn eq_spec(&self, other: &Self) -> bool {
        *self == *other
    }
}

impl<T> Eq for Key<T> {}

/// A unique key for accessing a node with a dynamic type: a slot identity
/// together with the runtime tag of the node type the key was made for.
///
/// A dynamic key crosses the type-erased access surface; it can be turned
/// back into a typed key only for the node type whose tag it carries.
#[derive(Clone, Copy, PartialEq, Eq, Hash, Debug, Structural)]
pub struct DynKey {
    pub slot: SlotId,
    pub node_type: u64,
}

impl DynKey {
    /// The slot identity this key refers to.
    pub open spec fn spec_slot(self) -> SlotId {
        self.slot
    }

    /// The runtime tag of the node type this key was made for.
    pub open spec fn spec_node_type(self) -> u64 {
        self.node_type
    }

    /// Erases a typed key into a dynamic key carrying the type's tag.
    pub fn new<T: NodeType>(key: Key<T>) -> (r: Self)
        ensures
            r.spec_slot() == key.spec_slot(),
            r.spec_node_type() == T::spec_tag(),
    {
        DynKey { slot: key.slot(), node_type: T::tag() }
    }

    /// Builds a dynamic key from a slot identity and a tag.
    pub(crate) fn from_parts(slot: SlotId, node_type: u64) -> (r: Self)
        ensures
            r.spec_slot() == slot,
            r.spec_node_type() == node_type,
    {
        DynKey { slot, node_type }
    }

    /// The slot identity this key refers to.
    pub fn slot(&self) -> (r: SlotId)
        ensures
            r == self.spec_slot(),
    {
        self.slot
    }

    /// The runtime tag of the node type this key was made for.
    pub fn node_type(&self) -> (r: u64)
        ensures
            r == self.spec_node_type(),
    {
        self.node_type
    }

    /// Recovers the typed key, exactly when the key was made for `T`: the
    /// single checked downcast of the handle layer. For every other node
    /// type the result is absence.
    pub fn into_static<T: NodeType>(self) -> (r: Option<Key<T>>)
        ensures
            match r {
                Some(k) => T::spec_tag() == self.spec_node_type()
                    && k.spec_slot() == self.spec_slot(),
                None => T::spec_tag() != self.spec_node_type(),
            },
    {
        if T::tag() == self.node_type {
            Some(Key::new(self.slot))
        } else {
            None
        }
    }

    /// Two dynamic keys are equal exactly when both their slot identity and
    /// their type tag agree.
    pub proof fn lemma_eq_is_parts_eq(k1: Self, k2: Self)
        ensures
            (k1 == k2) <==> (k1.spec_slot() == k2.spec_slot()
                && k1.spec_node_type() == k2.spec_node_type()),
    {
    }
}

impl<T: NodeType> From<Key<T>> for DynKey {
    fn from(key: Key<T>) -> (r: Self) {
        DynKey::new(key)
    }
}

impl<T: NodeType> vstd::std_specs::convert::FromSpecImpl<Key<T>> for DynKey {
    open spec fn obeys_from_spec() -> bool {
        true
    }

    open spec fn from_spec(key: Key<T>) -> Self {
        DynKey { slot: key.spec_slot(), node_type: T::spec_tag() }
    }
}

/// A unique key for accessing a reserved node slot of type `T`.
///
/// Produced by reserving a slot, consumed exactly once by filling it. It does
/// not grant read access: a reserved slot resolves to nothing until filled.
#[derive(Debug, Hash)]
pub struct ReservedKey<T> {
    slot: SlotId,
    node_type: PhantomData<T>,
}

impl<T> ReservedKey<T> {
    /// The slot identity this key refers to.
    pub closed spec fn spec_slot(self) -> SlotId {
        self.slot
    }

    pub(crate) fn new(slot: SlotId) -> (r: Self)
        ensures
            r.spec_slot() == slot,
    {
        ReservedKey { slot, node_type: PhantomData }
    }

    /// The slot identity this key refers to.
    pub fn slot(&self) -> (r: SlotId)
        ensures
            r == self.spec_slot(),
    {
        self.slot
    }
}

impl<T> PartialEq for ReservedKey<T> {
    fn eq(&self, other: &Self) -> (r: bool)
        ensures
            r <==> *self == *other,
    {
        self.slot == other.slot
    }
}

impl<T> vstd::std_specs::cmp::PartialEqSpecImpl for ReservedKey<T> {
    open spec fn obeys_eq_spec() -> bool {
        true
    }

    open spec fn eq_spec(&self, other: &Self) -> bool {
        *self == *other
    }
}

impl<T> Eq for ReservedKey<T> {}

/// What one live slot holds: nothing yet, or a value.
pub enum SlotState<T> {
    /// The slot was allocated by a reservation and has not been filled.
    Reserved,
    /// The slot holds a value.
    Filled(T),
}

/// One storage cell of the arena. `Vacant` cells are free for reuse and are
/// invisible in the group's model; the generation tells handles made for an
/// earlier occupant apart from the current one.
enum Slot<T> {
    Vacant,
    Reserved,
    Filled(T),
}

impl<T> Slot<T> {
    fn as_filled(&self) -> (r: Option<&T>)
        ensures
            match r {
                Some(v) => *self matches Slot::Filled(x) && x == *v,
                None => !(*self matches Slot::Filled(_)),
            },
    {
        if let Slot::Filled(value) = self {
            Some(value)
        } else {
            None
        }
    }

    fn as_filled_mut(&mut self) -> (r: Option<&mut T>)
        ensures
            match r {
                Some(v) => {
                    &&& *old(self) matches Slot::Filled(x) && x == *v
                    &&& *final(self) == Slot::Filled(*final(v))
                },
                None => {
                    &&& !(*old(self) matches Slot::Filled(_))
                    &&& *final(self) == *old(self)
                },
            },
    {
        if let Slot::Filled(value) = self {
            Some(value)
        } else {
            None
        }
    }

    fn into_filled(self) -> (r: Option<T>)
        ensures
            match r {
                Some(v) => self matches Slot::Filled(x) && x == v,
                None => !(self matches Slot::Filled(_)),
            },
    {
        if let Slot::Filled(value) = self {
            Some(value)
        } else {
            None
        }
    }
}

struct Entry<T> {
    generation: u64,
    slot: Slot<T>,
}

/// The slot collection for one concrete node type, with its index from
/// external identifiers to slots.
///
/// The group is modelled by two maps: [`NodeGroup::slots`], from the identity
/// of every live slot to its state (reserved or filled), and
/// [`NodeGroup::ids`], from external identifiers to the live slots they were
/// registered for.
#[verifier::reject_recursive_types(I)]
pub struct NodeGroup<I, T> where I: View + Eq + Hash {
    entries: Vec<Entry<T>>,
    free: Vec<usize>,
    id_map: HashMapWithView<I, SlotId>,
}

impl<I, T> NodeGroup<I, T> where I: View + Eq + Hash {
    /// A slot identity is live when it addresses the current occupant of a
    /// cell that is reserved or filled.
    spec fn spec_live(self, s: SlotId) -> bool {
        &&& s.index < self.entries@.len()
        &&& self.entries@[s.index as int].generation == s.generation
        &&& !(self.entries@[s.index as int].slot is Vacant)
    }

    /// The state of every live slot, by slot identity.
    pub closed spec fn slots(self) -> Map<SlotId, SlotState<T>> {
        Map::new(
            |s: SlotId| self.spec_live(s),
            |s: SlotId| match self.entries@[s.index as int].slot {
                Slot::Reserved => SlotState::Reserved,
                Slot::Filled(v) => SlotState::Filled(v),
                Slot::Vacant => SlotState::Reserved,
            },
        )
    }

    /// The live slot registered for each external identifier.
    pub closed spec fn ids(self) -> Map<I::V, SlotId> {
        Map::new(
            |i: I::V| self.id_map@.contains_key(i) && self.spec_live(self.id_map@[i]),
            |i: I::V| self.id_map@[i],
        )
    }

    /// The value a key's slot resolves to: the stored value for a filled
    /// slot, absence for a slot that is still reserved or does not exist.
    pub open spec fn spec_get(self, s: SlotId) -> Option<T> {
        if self.slots().contains_key(s) {
            match self.slots()[s] {
                SlotState::Filled(v) => Some(v),
                SlotState::Reserved => None,
            }
        } else {
            None
        }
    }

    /// The identifier index with every entry for the slot `s` dropped: what
    /// the index becomes when `s` is removed.
    pub open spec fn ids_without(ids: Map<I::V, SlotId>, s: SlotId) -> Map<I::V, SlotId> {
        Map::new(|i: I::V| ids.contains_key(i) && ids[i] != s, |i: I::V| ids[i])
    }

    /// A slot identity that is retired for good: its cell has moved past
    /// its generation, which only happens by removal and is never undone.
    /// Removal retires the removed identity, no operation revives a retired
    /// identity, and every operation that allocates a slot yields an
    /// identity that is neither live nor retired — so a key handed out
    /// after a removal can be told apart from the removed key.
    pub closed spec fn spec_dead(self, s: SlotId) -> bool {
        s.index < self.entries@.len()
            && s.generation < self.entries@[s.index as int].generation
    }

    /// Every identifier entry points at a live slot: a slot that was never
    /// given an identifier — or whose identifier entry was dropped — cannot
    /// be reached through the identifier index.
    pub proof fn lemma_ids_point_at_live_slots(self)
        ensures
            forall|iv: I::V| #[trigger] self.ids().contains_key(iv)
                ==> self.slots().contains_key(self.ids()[iv]),
    {
    }

    /// A live slot identity is never a retired one.
    pub proof fn lemma_live_is_not_dead(self)
        ensures
            forall|s: SlotId| #[trigger] self.slots().contains_key(s) ==> !self.spec_dead(s),
    {
    }

    /// The traversal of the filled slots of the arena's first `n` cells, in
    /// cell position order.
    spec fn spec_filled_prefix(entries: Seq<Entry<T>>, n: int) -> Seq<(SlotId, T)>
        decreases n,
    {
        if n <= 0 {
            Seq::empty()
        } else {
            Self::spec_filled_prefix(entries, n - 1) + match entries[n - 1].slot {
                Slot::Filled(v) => seq![
                    (SlotId { index: (n - 1) as usize, generation: entries[n - 1].generation }, v),
                ],
                _ => Seq::empty(),
            }
        }
    }

    /// The group's traversal: every filled slot paired with its value, in
    /// slot position order. Opaque to callers, but a function of the group
    /// alone, so two traversals of one unchanged group are equal.
    pub closed spec fn traversal(self) -> Seq<(SlotId, T)> {
        Self::spec_filled_prefix(self.entries@, self.entries@.len() as int)
    }

    /// Internal consistency of the arena's free list and generations.
    /// Established by the constructor and preserved by every operation.
    pub closed spec fn wf(self) -> bool {
        &&& forall|j: int| 0 <= j < self.free@.len() ==> {
            &&& (#[trigger] self.free@[j]) < self.entries@.len()
            &&& self.entries@[self.free@[j] as int].slot is Vacant
            &&& self.entries@[self.free@[j] as int].generation < u64::MAX
        }
        &&& forall|j: int, k: int|
            0 <= j < self.free@.len() && 0 <= k < self.free@.len() && j != k
                ==> #[trigger] self.free@[j] != #[trigger] self.free@[k]
        &&& forall|i: int| 0 <= i < self.entries@.len()
            && !((#[trigger] self.entries@[i]).slot is Vacant)
                ==> self.entries@[i].generation < u64::MAX
        // an identifier entry either points at the current occupant of its
        // cell, or at a strictly older generation; it can never come back to
        // life when the cell is reused
        &&& forall|iv: I::V| #[trigger] self.id_map@.contains_key(iv) ==> {
            &&& self.id_map@[iv].index < self.entries@.len()
            &&& (self.id_map@[iv].generation < self.entries@[self.id_map@[iv].index as int].generation
                || (self.id_map@[iv].generation == self.entries@[self.id_map@[iv].index as int].generation
                    && !(self.entries@[self.id_map@[iv].index as int].slot is Vacant)))
        }
    }

    /// Creates an empty group.
    pub fn new() -> (r: Self)
        requires
            obeys_key_model::<I>(),
            forall|i1: I, i2: I| i1@ == i2@ ==> i1 == i2,
        ensures
            r.wf(),
            r.slots() == Map::<SlotId, SlotState<T>>::empty(),
            r.ids() == Map::<I::V, SlotId>::empty(),
            forall|s: SlotId| !r.spec_dead(s),
    {
        let r = NodeGroup {
            entries: Vec::new(),
            free: Vec::new(),
            id_map: HashMapWithView::new(),
        };
        proof {
            assert(r.slots() =~= Map::<SlotId, SlotState<T>>::empty());
            assert(r.ids() =~= Map::<I::V, SlotId>::empty());
        }
        r
    }

    /// Allocates a cell and returns its slot identity; the cell is left with
    /// the given slot state. Internal allocation step shared by insertion and
    /// reservation.
    fn allocate(&mut self, slot: Slot<T>) -> (s: SlotId)
        requires
            old(self).wf(),
            !(slot is Vacant),
        ensures
            final(self).wf(),
            !old(self).spec_live(s),
            final(self).spec_live(s),
            final(self).entries@[s.index as int].slot == slot,
            // the fresh slot reuses a vacant cell at its old generation, or
            // extends the arena by one cell
            s.index < old(self).entries@.len() ==> {
                &&& old(self).entries@[s.index as int].generation == s.generation
                &&& old(self).entries@[s.index as int].slot is Vacant
            },
            s.index >= old(self).entries@.len() ==> s.index == old(self).entries@.len(),
            // every other slot identity is untouched
            forall|t: SlotId| t != s ==> old(self).spec_live(t) == final(self).spec_live(t),
            forall|t: SlotId| t != s && old(self).spec_live(t)
                ==> final(self).entries@[t.index as int] == old(self).entries@[t.index as int],
            final(self).id_map@ == old(self).id_map@,
            // retired identities are untouched, and the fresh one is not
            // among them
            !old(self).spec_dead(s),
            forall|t: SlotId| #[trigger] final(self).spec_dead(t) == old(self).spec_dead(t),
    {
        if let Some(index) = self.free.pop() {
            let generation = self.entries[index].generation;
            let ghost old_entries = self.entries@;
            let entry = &mut self.entries[index];
            entry.slot = slot;
            let s = SlotId { index, generation };
            proof {
                assert(forall|t: SlotId| t != s && old(self).spec_live(t)
                    ==> self.entries@[t.index as int] == old_entries[t.index as int]);
            }
            s
        } else {
            let index = self.entries.len();
            self.entries.push(Entry { generation: 0, slot });
            SlotId { index, generation: 0 }
        }
    }

    /// A slot identity that addresses a vacant cell at the cell's current
    /// generation, or lies beyond the arena, is not registered for any
    /// identifier: identifier entries point at reserved or filled cells, or
    /// at strictly older generations.
    proof fn lemma_fresh_slot_not_indexed(self, s: SlotId)
        requires
            self.wf(),
            s.index < self.entries@.len() ==> {
                &&& self.entries@[s.index as int].generation == s.generation
                &&& self.entries@[s.index as int].slot is Vacant
            },
        ensures
            forall|iv: I::V| #[trigger] self.id_map@.contains_key(iv) ==> self.id_map@[iv] != s,
    {
    }

    /// Inserts a node into a fresh slot and returns its key. The new slot is
    /// filled at once; no identifier is registered for it.
    pub fn insert(&mut self, node: T) -> (key: Key<T>)
        requires
            old(self).wf(),
        ensures
            final(self).wf(),
            !old(self).slots().contains_key(key.spec_slot()),
            !old(self).spec_dead(key.spec_slot()),
            final(self).slots() == old(self).slots().insert(key.spec_slot(), SlotState::Filled(node)),
            final(self).ids() == old(self).ids(),
            forall|t: SlotId| #[trigger] final(self).spec_dead(t) == old(self).spec_dead(t),
    {
        let s = self.allocate(Slot::Filled(node));
        proof {
            old(self).lemma_fresh_slot_not_indexed(s);
            assert(self.slots() =~= old(self).slots().insert(s, SlotState::Filled(node)));
            assert(self.ids() =~= old(self).ids());
        }
        Key::new(s)
    }

    /// Fills a previously reserved slot with its value and returns the key
    /// that from now on resolves to it. The key refers to the same slot the
    /// reservation did, so a key obtained for the reservation's identifier
    /// before the fill resolves to the value afterwards.
    pub fn insert_reserved(&mut self, key: ReservedKey<T>, node: T) -> (k: Key<T>)
        requires
            old(self).wf(),
            old(self).slots().contains_key(key.spec_slot()),
            old(self).slots()[key.spec_slot()] is Reserved,
        ensures
            final(self).wf(),
            k.spec_slot() == key.spec_slot(),
            final(self).slots() == old(self).slots().insert(key.spec_slot(), SlotState::Filled(node)),
            final(self).ids() == old(self).ids(),
            forall|t: SlotId| #[trigger] final(self).spec_dead(t) == old(self).spec_dead(t),
    {
        let s = key.slot();
        let entry = &mut self.entries[s.index];
        entry.slot = Slot::Filled(node);
        proof {
            assert(self.slots() =~= old(self).slots().insert(s, SlotState::Filled(node)));
            assert(self.ids() =~= old(self).ids());
        }
        Key::new(s)
    }

    /// Looks up the value a key resolves to. A slot that is still reserved,
    /// or that was removed, resolves to nothing.
    pub fn get(&self, key: Key<T>) -> (r: Option<&T>)
        ensures
            match r {
                Some(v) => self.spec_get(key.spec_slot()) == Some(*v),
                None => self.spec_get(key.spec_slot()) is None,
            },
    {
        let s = key.slot();
        if s.index < self.entries.len() {
            let entry = &self.entries[s.index];
            if entry.generation == s.generation {
                entry.slot.as_filled()
            } else {
                None
            }
        } else {
            None
        }
    }

    /// Mutably looks up the value a key resolves to. Writing through the
    /// returned reference replaces the stored value; nothing else changes.
    pub fn get_mut(&mut self, key: Key<T>) -> (r: Option<&mut T>)
        requires
            old(self).wf(),
        ensures
            match r {
                Some(v) => {
                    &&& old(self).spec_get(key.spec_slot()) == Some(*v)
                    &&& final(self).wf()
                    &&& final(self).slots() == old(self).slots().insert(
                        key.spec_slot(),
                        SlotState::Filled(*final(v)),
                    )
                    &&& final(self).ids() == old(self).ids()
                    &&& forall|t: SlotId| #[trigger] final(self).spec_dead(t)
                        == old(self).spec_dead(t)
                },
                None => {
                    &&& old(self).spec_get(key.spec_slot()) is None
                    &&& *final(self) == *old(self)
                },
            },
    {
        let s = key.slot();
        if s.index >= self.entries.len() {
            return None;
        }
        let filled = {
            let entry = &self.entries[s.index];
            entry.generation == s.generation && matches!(entry.slot, Slot::Filled(_))
        };
        if !filled {
            return None;
        }
        let entry = &mut self.entries[s.index];
        let r = entry.slot.as_filled_mut();
        proof {
            assert(after_borrow(*self).slots() =~= old(self).slots().insert(
                s,
                SlotState::Filled(*final(r.unwrap())),
            ));
            assert(after_borrow(*self).ids() =~= old(self).ids());
            assert(after_borrow(*self).wf());
        }
        r
    }

    /// Removes the value in a filled slot. The slot's identity is retired:
    /// the key, and every identifier entry registered for the slot, stop
    /// resolving. Removing a slot that is still reserved, or already gone,
    /// changes nothing.
    pub fn remove(&mut self, key: Key<T>) -> (r: Option<T>)
        requires
            old(self).wf(),
        ensures
            final(self).wf(),
            match r {
                Some(v) => {
                    &&& old(self).spec_get(key.spec_slot()) == Some(v)
                    &&& final(self).slots() == old(self).slots().remove(key.spec_slot())
                    &&& final(self).ids() == Self::ids_without(old(self).ids(), key.spec_slot())
                    &&& forall|t: SlotId| #[trigger] final(self).spec_dead(t)
                        == (old(self).spec_dead(t) || t == key.spec_slot())
                },
                None => {
                    &&& old(self).spec_get(key.spec_slot()) is None
                    &&& *final(self) == *old(self)
                },
            },
    {
        let s = key.slot();
        if s.index >= self.entries.len() {
            return None;
        }
        let filled = {
            let entry = &self.entries[s.index];
            entry.generation == s.generation && matches!(entry.slot, Slot::Filled(_))
        };
        if !filled {
            return None;
        }
        let entry = &mut self.entries[s.index];
        entry.generation = entry.generation + 1;
        let mut taken = Slot::Vacant;
        core::mem::swap(&mut entry.slot, &mut taken);
        let new_generation = self.entries[s.index].generation;
        if new_generation < u64::MAX {
            self.free.push(s.index);
        }
        proof {
            assert(self.slots() =~= old(self).slots().remove(s));
            assert(self.ids() =~= Self::ids_without(old(self).ids(), s));
        }
        taken.into_filled()
    }
}

impl<I, T> NodeGroup<I, T> where I: View + Eq + Hash {
    /// Inserts a node into a fresh slot and registers it under an external
    /// identifier. If the identifier was already registered, the index entry
    /// is replaced and the previously registered key is returned; the old
    /// slot itself is left untouched and stays reachable through its own key.
    pub fn insert_with_id(&mut self, id: I, node: T) -> (r: (Key<T>, Option<Key<T>>))
        requires
            old(self).wf(),
        ensures
            final(self).wf(),
            !old(self).slots().contains_key(r.0.spec_slot()),
            !old(self).spec_dead(r.0.spec_slot()),
            final(self).slots() == old(self).slots().insert(r.0.spec_slot(), SlotState::Filled(node)),
            final(self).ids() == old(self).ids().insert(id@, r.0.spec_slot()),
            forall|t: SlotId| #[trigger] final(self).spec_dead(t) == old(self).spec_dead(t),
            match r.1 {
                Some(prev) => old(self).ids().contains_key(id@)
                    && prev.spec_slot() == old(self).ids()[id@],
                None => !old(self).ids().contains_key(id@),
            },
    {
        let prev = self.lookup_live(&id);
        let s = self.allocate(Slot::Filled(node));
        let ghost mid = *self;
        self.id_map.insert(id, s);
        proof {
            old(self).lemma_fresh_slot_not_indexed(s);
            assert(self.slots() =~= old(self).slots().insert(s, SlotState::Filled(node)));
            assert(self.ids() =~= old(self).ids().insert(id@, s));
            assert forall|t: SlotId| #[trigger] self.spec_dead(t) == old(self).spec_dead(t) by {
                assert(mid.spec_dead(t) == old(self).spec_dead(t));
            };
        }
        (Key::new(s), prev)
    }

    /// Allocates a still-empty slot, registers it under an external
    /// identifier, and returns the reservation key that can fill it later.
    /// Until the slot is filled it resolves to nothing, but its key can
    /// already be requested by identifier: this is what breaks cycles when
    /// values that reference each other are built one at a time. A previously
    /// registered key for the identifier is returned as with insertion.
    pub fn reserve_with_id(&mut self, id: I) -> (r: (ReservedKey<T>, Option<Key<T>>))
        requires
            old(self).wf(),
        ensures
            final(self).wf(),
            !old(self).slots().contains_key(r.0.spec_slot()),
            !old(self).spec_dead(r.0.spec_slot()),
            final(self).slots() == old(self).slots().insert(r.0.spec_slot(), SlotState::Reserved),
            final(self).ids() == old(self).ids().insert(id@, r.0.spec_slot()),
            forall|t: SlotId| #[trigger] final(self).spec_dead(t) == old(self).spec_dead(t),
            match r.1 {
                Some(prev) => old(self).ids().contains_key(id@)
                    && prev.spec_slot() == old(self).ids()[id@],
                None => !old(self).ids().contains_key(id@),
            },
    {
        let prev = self.lookup_live(&id);
        let s = self.allocate(Slot::Reserved);
        let ghost mid = *self;
        self.id_map.insert(id, s);
        proof {
            old(self).lemma_fresh_slot_not_indexed(s);
            assert(self.slots() =~= old(self).slots().insert(s, SlotState::Reserved));
            assert(self.ids() =~= old(self).ids().insert(id@, s));
            assert forall|t: SlotId| #[trigger] self.spec_dead(t) == old(self).spec_dead(t) by {
                assert(mid.spec_dead(t) == old(self).spec_dead(t));
            };
        }
        (ReservedKey::new(s), prev)
    }

    /// Finds the key registered for an external identifier. The slot may
    /// still be reserved: the key is returned all the same, and resolving it
    /// tells whether the value exists yet.
    pub fn get_key(&self, id: &I) -> (r: Option<Key<T>>)
        ensures
            match r {
                Some(k) => self.ids().contains_key(id@) && k.spec_slot() == self.ids()[id@],
                None => !self.ids().contains_key(id@),
            },
    {
        match self.lookup_live(id) {
            Some(k) => Some(k),
            None => None,
        }
    }

    /// A snapshot of every filled slot, in slot position order: the group's
    /// traversal surface. Reserved slots are invisible, every filled slot
    /// appears exactly once, and each pair resolves to the stored value.
    pub fn filled_entries(&self) -> (r: Vec<(SlotId, &T)>)
        ensures
            forall|i: int| 0 <= i < r@.len()
                ==> self.spec_get((#[trigger] r@[i]).0) == Some(*r@[i].1),
            forall|i: int, j: int| 0 <= i < j < r@.len()
                ==> (#[trigger] r@[i]).0.index < (#[trigger] r@[j]).0.index,
            forall|s: SlotId|
                self.slots().contains_key(s) && #[trigger] self.slots()[s] is Filled
                    ==> exists|i: int| 0 <= i < r@.len() && (#[trigger] r@[i]).0 == s,
            // the snapshot is exactly the group's traversal, a function of
            // the group alone
            r@.len() == self.traversal().len(),
            forall|i: int| 0 <= i < r@.len() ==> (#[trigger] r@[i]).0 == self.traversal()[i].0
                && *r@[i].1 == self.traversal()[i].1,
    {
        let mut out: Vec<(SlotId, &T)> = Vec::new();
        let mut i: usize = 0;
        while i < self.entries.len()
            invariant
                i <= self.entries@.len(),
                forall|j: int| 0 <= j < out@.len() ==> (#[trigger] out@[j]).0.index < i,
                forall|j: int| 0 <= j < out@.len()
                    ==> self.spec_get((#[trigger] out@[j]).0) == Some(*out@[j].1),
                forall|j: int, k: int| 0 <= j < k < out@.len()
                    ==> (#[trigger] out@[j]).0.index < (#[trigger] out@[k]).0.index,
                forall|s: SlotId|
                    s.index < i && self.slots().contains_key(s)
                        && #[trigger] self.slots()[s] is Filled
                        ==> exists|j: int| 0 <= j < out@.len() && (#[trigger] out@[j]).0 == s,
                out@.len() == Self::spec_filled_prefix(self.entries@, i as int).len(),
                forall|j: int| 0 <= j < out@.len() ==> (#[trigger] out@[j]).0
                    == Self::spec_filled_prefix(self.entries@, i as int)[j].0
                    && *out@[j].1 == Self::spec_filled_prefix(self.entries@, i as int)[j].1,
            decreases self.entries@.len() - i,
        {
            let ghost out0 = out@;
            let entry = &self.entries[i];
            if let Slot::Filled(v) = &entry.slot {
                out.push((SlotId { index: i, generation: entry.generation }, v));
            }
            i = i + 1;
            proof {
                assert forall|s: SlotId|
                    s.index < i && self.slots().contains_key(s)
                        && #[trigger] self.slots()[s] is Filled
                        implies exists|j: int| 0 <= j < out@.len() && (#[trigger] out@[j]).0 == s
                by {
                    if s.index == i - 1 {
                        if self.entries@[i - 1].slot is Filled {
                            assert((out@[out@.len() - 1]).0 == s);
                        } else {
                            assert(!(self.slots()[s] is Filled));
                        }
                    } else {
                        let j = choose|j: int| 0 <= j < out0.len() && (#[trigger] out0[j]).0 == s;
                        assert((out@[j]).0 == s);
                    }
                };
            }
        }
        out
    }

    /// Looks up an identifier entry and keeps it only when its slot is
    /// still live.
    fn lookup_live(&self, id: &I) -> (r: Option<Key<T>>)
        ensures
            match r {
                Some(k) => self.ids().contains_key(id@) && k.spec_slot() == self.ids()[id@],
                None => !self.ids().contains_key(id@),
            },
    {
        match self.id_map.get(id) {
            Some(s) => {
                let s = *s;
                if s.index < self.entries.len() {
                    let entry = &self.entries[s.index];
                    if entry.generation == s.generation && !matches!(entry.slot, Slot::Vacant) {
                        Some(Key::new(s))
                    } else {
                        None
                    }
                } else {
                    None
                }
            },
            None => None,
        }
    }
}

} // verus!
