//! A type-safe heterogeneous node store.
//!
//! The store keeps values of many distinct node types at once, hands out
//! stable typed handles to them, and supports reserving a slot for a value
//! before the value exists, so that cyclic references can be built from an
//! order-independent data source.
//!
//! Values of each concrete node type live in their own [`NodeGroup`], looked
//! up by the type's runtime tag; the group for a type is created lazily on
//! its first use. Typed access goes through [`Key`]s, type-erased access
//! through [`DynKey`]s and the capability bounds of [`bounds`].

use vstd::prelude::*;
use vstd::std_specs::hash::obeys_key_model;
use vstd::hash_map::HashMapWithView;
use core::hash::Hash;

use crate::bounds::{BoundedBy, Bounds};

pub use crate::node_group::{DynKey, Key, NodeGroup, ReservedKey, SlotId, SlotState};
pub use crate::parse::{Error, TableId, TableIdSource};

pub mod bounds;
pub mod laws;
pub mod node_group;
pub mod parse;
pub mod generate_lua;

verus! {

/// A set of nodes of different types.
///
/// Each concrete node type's values live in one [`NodeGroup`], found by the
/// type's runtime tag. The store is modelled per tag: [`Nodes::group_slots`]
/// gives the live slots of the group for a tag, [`Nodes::group_ids`] its
/// identifier index; a tag without a group is modelled as an empty group.
/// Nodes can be inserted and found again with an arbitrary identifier, whose
/// scope is the node type: the same identifier names at most one slot per
/// type, and different types never collide.
#[verifier::reject_recursive_types(I)]
#[verifier::reject_recursive_types(B)]
pub struct Nodes<I, B> where I: View + Eq + Hash, B: Bounds {
    groups: Vec<(u64, NodeGroup<I, B::DynSelf>)>,
    tag_index: HashMapWithView<u64, usize>,
}

impl<I, B> Nodes<I, B> where I: View + Eq + Hash, B: Bounds {
    /// Internal consistency: the tag index and the group list name each
    /// other exactly, every group is well formed, and the identifier type
    /// supports hashing soundly. Established by the constructor, preserved
    /// by every operation.
    pub closed spec fn wf(self) -> bool {
        &&& obeys_key_model::<I>()
        &&& forall|i1: I, i2: I| i1@ == i2@ ==> i1 == i2
        &&& forall|t: u64| #[trigger] self.tag_index@.contains_key(t) ==> {
            &&& self.tag_index@[t] < self.groups@.len()
            &&& self.groups@[self.tag_index@[t] as int].0 == t
        }
        &&& forall|j: int| 0 <= j < self.groups@.len() ==> {
            &&& self.tag_index@.contains_key((#[trigger] self.groups@[j]).0)
            &&& self.tag_index@[self.groups@[j].0] == j
            &&& self.groups@[j].1.wf()
        }
    }

    /// The live slots of the group for a tag, by slot identity. A tag whose
    /// group does not exist yet is an empty group.
    pub closed spec fn group_slots(self, tag: u64) -> Map<SlotId, SlotState<B::DynSelf>> {
        if self.tag_index@.contains_key(tag) && self.tag_index@[tag] < self.groups@.len() {
            self.groups@[self.tag_index@[tag] as int].1.slots()
        } else {
            Map::empty()
        }
    }

    /// The identifier index of the group for a tag: which live slot each
    /// external identifier is registered for.
    pub closed spec fn group_ids(self, tag: u64) -> Map<I::V, SlotId> {
        if self.tag_index@.contains_key(tag) && self.tag_index@[tag] < self.groups@.len() {
            self.groups@[self.tag_index@[tag] as int].1.ids()
        } else {
            Map::empty()
        }
    }

    /// The dynamic value stored for a tag and slot identity: the wrapped
    /// value of a filled slot, absence for a reserved slot or one that does
    /// not exist.
    pub open spec fn dyn_get_at(self, tag: u64, s: SlotId) -> Option<B::DynSelf> {
        if self.group_slots(tag).contains_key(s) {
            match self.group_slots(tag)[s] {
                SlotState::Filled(d) => Some(d),
                SlotState::Reserved => None,
            }
        } else {
            None
        }
    }

    /// The dynamic value a dynamic key resolves to.
    pub open spec fn dyn_get(self, key: DynKey) -> Option<B::DynSelf> {
        self.dyn_get_at(key.spec_node_type(), key.spec_slot())
    }

    /// The value a typed key resolves to: the stored dynamic value of its
    /// slot, projected back to `T`. Absence if the slot is missing, still
    /// reserved, or holds a value of another type.
    pub open spec fn spec_get<T: BoundedBy<B>>(self, key: Key<T>) -> Option<T> {
        match self.dyn_get_at(T::spec_tag(), key.spec_slot()) {
            Some(d) => T::spec_from_dyn(d),
            None => None,
        }
    }

    /// Every dynamic key that currently resolves to a value.
    pub open spec fn dyn_domain(self) -> Set<DynKey> {
        Set::new(|k: DynKey| self.dyn_get(k) is Some)
    }

    /// A slot identity of a tag's group that is retired for good. Removal
    /// retires the removed identity, no operation revives a retired one,
    /// and every operation that allocates a slot yields an identity that is
    /// neither live nor retired — so a key handed out after a removal can
    /// be told apart from every key removed before it.
    pub closed spec fn dead_at(self, tag: u64, s: SlotId) -> bool {
        self.tag_index@.contains_key(tag) && self.tag_index@[tag] < self.groups@.len()
            && self.groups@[self.tag_index@[tag] as int].1.spec_dead(s)
    }

    /// Every identifier entry of a tag's group points at a live slot: a
    /// slot that was never registered under an identifier — or whose
    /// identifier entry was dropped — cannot be reached through
    /// [`Nodes::get_key`].
    pub proof fn lemma_ids_point_at_live_slots(self, tag: u64)
        ensures
            forall|iv: I::V| #[trigger] self.group_ids(tag).contains_key(iv)
                ==> self.group_slots(tag).contains_key(self.group_ids(tag)[iv]),
    {
        if self.tag_index@.contains_key(tag) && self.tag_index@[tag] < self.groups@.len() {
            self.groups@[self.tag_index@[tag] as int].1.lemma_ids_point_at_live_slots();
        }
    }

    /// A live slot identity is never a retired one.
    pub proof fn lemma_live_is_not_dead(self, tag: u64)
        ensures
            forall|s: SlotId| #[trigger] self.group_slots(tag).contains_key(s)
                ==> !self.dead_at(tag, s),
    {
        if self.tag_index@.contains_key(tag) && self.tag_index@[tag] < self.groups@.len() {
            self.groups@[self.tag_index@[tag] as int].1.lemma_live_is_not_dead();
        }
    }

    /// The traversal of the first `n` groups: each group's traversal, its
    /// slot identities tagged with the group's tag.
    spec fn spec_groups_traversal(
        groups: Seq<(u64, NodeGroup<I, B::DynSelf>)>,
        n: int,
    ) -> Seq<(DynKey, B::DynSelf)>
        decreases n,
    {
        if n <= 0 {
            Seq::empty()
        } else {
            Self::spec_groups_traversal(groups, n - 1) + groups[n - 1].1.traversal().map_values(
                |p: (SlotId, B::DynSelf)| (DynKey { slot: p.0, node_type: groups[n - 1].0 }, p.1),
            )
        }
    }

    /// The store's traversal: every filled slot's dynamic key and value,
    /// groups in the order their types first appeared, slots within a group
    /// in slot position order. Opaque to callers, but a function of the
    /// store alone: two traversals of one unchanged store are equal.
    pub closed spec fn traversal(self) -> Seq<(DynKey, B::DynSelf)> {
        Self::spec_groups_traversal(self.groups@, self.groups@.len() as int)
    }

    /// Creates an empty store.
    pub fn new() -> (r: Self)
        requires
            obeys_key_model::<I>(),
            forall|i1: I, i2: I| i1@ == i2@ ==> i1 == i2,
        ensures
            r.wf(),
            forall|t: u64| #[trigger] r.group_slots(t) == Map::<SlotId, SlotState<B::DynSelf>>::empty(),
            forall|t: u64| #[trigger] r.group_ids(t) == Map::<I::V, SlotId>::empty(),
            forall|t: u64, s: SlotId| !r.dead_at(t, s),
    {
        Nodes { groups: Vec::new(), tag_index: HashMapWithView::new() }
    }

    /// Finds the position of the group for a tag, if the group exists.
    fn group_index(&self, tag: u64) -> (r: Option<usize>)
        requires
            self.wf(),
        ensures
            match r {
                Some(ix) => self.tag_index@.contains_key(tag) && ix == self.tag_index@[tag]
                    && ix < self.groups@.len() && self.groups@[ix as int].0 == tag,
                None => !self.tag_index@.contains_key(tag),
            },
    {
        match self.tag_index.get(&tag) {
            Some(ix) => Some(*ix),
            None => None,
        }
    }

    /// Finds the group for a tag, creating an empty one if the tag has none
    /// yet, and returns its position.
    fn ensure_group(&mut self, tag: u64) -> (ix: usize)
        requires
            old(self).wf(),
        ensures
            final(self).wf(),
            final(self).tag_index@.contains_key(tag),
            ix == final(self).tag_index@[tag],
            ix < final(self).groups@.len(),
            final(self).groups@[ix as int].0 == tag,
            old(self).tag_index@.contains_key(tag) ==> *final(self) == *old(self),
            forall|t: u64, s: SlotId| #[trigger] final(self).dead_at(t, s)
                == old(self).dead_at(t, s),
            !old(self).tag_index@.contains_key(tag) ==> {
                &&& ix == old(self).groups@.len()
                &&& final(self).groups@ == old(self).groups@.push(final(self).groups@[ix as int])
                &&& final(self).groups@[ix as int].1.slots()
                    == Map::<SlotId, SlotState<B::DynSelf>>::empty()
                &&& final(self).groups@[ix as int].1.ids() == Map::<I::V, SlotId>::empty()
                &&& final(self).tag_index@ == old(self).tag_index@.insert(tag, ix)
            },
    {
        let existing = match self.tag_index.get(&tag) {
            Some(ix) => Some(*ix),
            None => None,
        };
        match existing {
            Some(ix) => ix,
            None => {
                let ix = self.groups.len();
                self.groups.push((tag, NodeGroup::new()));
                self.tag_index.insert(tag, ix);
                ix
            },
        }
    }

    /// Inserts a node into a fresh slot of its type's group and returns its
    /// key. No identifier is registered for the slot.
    pub fn insert<T>(&mut self, node: T) -> (key: Key<T>) where T: BoundedBy<B>
        requires
            old(self).wf(),
        ensures
            final(self).wf(),
            !old(self).group_slots(T::spec_tag()).contains_key(key.spec_slot()),
            !old(self).dead_at(T::spec_tag(), key.spec_slot()),
            final(self).group_slots(T::spec_tag()) == old(self).group_slots(T::spec_tag()).insert(
                key.spec_slot(),
                SlotState::Filled(T::spec_to_dyn(node)),
            ),
            forall|t: u64| t != T::spec_tag()
                ==> #[trigger] final(self).group_slots(t) == old(self).group_slots(t),
            forall|t: u64| #[trigger] final(self).group_ids(t) == old(self).group_ids(t),
            forall|t: u64, s: SlotId| #[trigger] final(self).dead_at(t, s)
                == old(self).dead_at(t, s),
    {
        let tag = T::tag();
        let ix = self.ensure_group(tag);
        let ghost mid = *self;
        let group = &mut self.groups[ix].1;
        let k = group.insert(T::to_dyn(node));
        proof {
            assert forall|t: u64, s: SlotId| #[trigger] self.dead_at(t, s)
                == old(self).dead_at(t, s)
            by {
                assert(mid.dead_at(t, s) == old(self).dead_at(t, s));
            };
        }
        Key::new(k.slot())
    }

    /// Fills a slot previously reserved with [`Nodes::reserve_with_id`] and
    /// returns the key that from now on resolves to the value. The key
    /// refers to the reservation's slot, so a key already handed out for the
    /// reservation's identifier resolves to the value afterwards.
    pub fn insert_reserved<T>(&mut self, key: ReservedKey<T>, node: T) -> (k: Key<T>) where
        T: BoundedBy<B>,
        requires
            old(self).wf(),
            old(self).group_slots(T::spec_tag()).contains_key(key.spec_slot()),
            old(self).group_slots(T::spec_tag())[key.spec_slot()] is Reserved,
        ensures
            final(self).wf(),
            k.spec_slot() == key.spec_slot(),
            final(self).group_slots(T::spec_tag()) == old(self).group_slots(T::spec_tag()).insert(
                key.spec_slot(),
                SlotState::Filled(T::spec_to_dyn(node)),
            ),
            forall|t: u64| t != T::spec_tag()
                ==> #[trigger] final(self).group_slots(t) == old(self).group_slots(t),
            forall|t: u64| #[trigger] final(self).group_ids(t) == old(self).group_ids(t),
            forall|t: u64, s: SlotId| #[trigger] final(self).dead_at(t, s)
                == old(self).dead_at(t, s),
    {
        let tag = T::tag();
        let ix = self.ensure_group(tag);
        let ghost mid = *self;
        let group = &mut self.groups[ix].1;
        let k = group.insert_reserved(ReservedKey::new(key.slot()), T::to_dyn(node));
        proof {
            assert forall|t: u64, s: SlotId| #[trigger] self.dead_at(t, s)
                == old(self).dead_at(t, s)
            by {
                assert(mid.dead_at(t, s) == old(self).dead_at(t, s));
            };
        }
        Key::new(k.slot())
    }

    /// Looks up the value a typed key resolves to. A slot that is still
    /// reserved, was removed, or holds a value of another type resolves to
    /// nothing.
    pub fn get<T>(&self, key: Key<T>) -> (r: Option<&T>) where T: BoundedBy<B>
        requires
            self.wf(),
        ensures
            match r {
                Some(v) => self.spec_get(key) == Some(*v),
                None => self.spec_get(key) is None,
            },
    {
        let tag = T::tag();
        match self.group_index(tag) {
            Some(ix) => {
                let group = &self.groups[ix].1;
                match group.get(Key::new(key.slot())) {
                    Some(d) => T::from_dyn_ref(d),
                    None => None,
                }
            },
            None => None,
        }
    }

    /// Mutably looks up the value a typed key resolves to. Writing through
    /// the returned reference replaces the stored value; every other slot,
    /// and every identifier entry, is untouched.
    pub fn get_mut<T>(&mut self, key: Key<T>) -> (r: Option<&mut T>) where T: BoundedBy<B>
        requires
            old(self).wf(),
        ensures
            match r {
                Some(v) => {
                    &&& old(self).spec_get(key) == Some(*v)
                    &&& final(self).wf()
                    &&& final(self).group_slots(T::spec_tag())
                        == old(self).group_slots(T::spec_tag()).insert(
                            key.spec_slot(),
                            SlotState::Filled(T::spec_to_dyn(*final(v))),
                        )
                    &&& forall|t: u64| t != T::spec_tag()
                        ==> #[trigger] final(self).group_slots(t) == old(self).group_slots(t)
                    &&& forall|t: u64| #[trigger] final(self).group_ids(t)
                        == old(self).group_ids(t)
                    &&& forall|t: u64, s: SlotId| #[trigger] final(self).dead_at(t, s)
                        == old(self).dead_at(t, s)
                },
                None => {
                    &&& old(self).spec_get(key) is None
                    &&& final(self).wf()
                    &&& forall|t: u64| #[trigger] final(self).group_slots(t)
                        == old(self).group_slots(t)
                    &&& forall|t: u64| #[trigger] final(self).group_ids(t)
                        == old(self).group_ids(t)
                    &&& forall|t: u64, s: SlotId| #[trigger] final(self).dead_at(t, s)
                        == old(self).dead_at(t, s)
                },
            },
    {
        let tag = T::tag();
        let ix = match self.group_index(tag) {
            Some(ix) => ix,
            None => {
                return None;
            },
        };
        let group = &mut self.groups[ix].1;
        match group.get_mut(Key::new(key.slot())) {
            Some(d) => {
                let r = T::from_dyn_mut(d);
                proof {
                    if r is None {
                        assert(after_borrow(*self).group_slots(T::spec_tag())
                            =~= old(self).group_slots(T::spec_tag()));
                    }
                }
                r
            },
            None => None,
        }
    }

    /// Removes the value a typed key resolves to. The slot's identity is
    /// retired: the key, and every identifier entry registered for the slot,
    /// stop resolving. Removing a slot that is reserved, already gone, or of
    /// another type changes nothing.
    pub fn remove<T>(&mut self, key: Key<T>) -> (r: Option<T>) where T: BoundedBy<B>
        requires
            old(self).wf(),
        ensures
            final(self).wf(),
            match r {
                Some(v) => {
                    &&& old(self).spec_get(key) == Some(v)
                    &&& final(self).group_slots(T::spec_tag())
                        == old(self).group_slots(T::spec_tag()).remove(key.spec_slot())
                    &&& final(self).group_ids(T::spec_tag())
                        == NodeGroup::<I, B::DynSelf>::ids_without(
                            old(self).group_ids(T::spec_tag()),
                            key.spec_slot(),
                        )
                    &&& forall|t: u64| t != T::spec_tag()
                        ==> #[trigger] final(self).group_slots(t) == old(self).group_slots(t)
                    &&& forall|t: u64| t != T::spec_tag()
                        ==> #[trigger] final(self).group_ids(t) == old(self).group_ids(t)
                    &&& forall|t: u64, s: SlotId| #[trigger] final(self).dead_at(t, s)
                        == (old(self).dead_at(t, s)
                            || (t == T::spec_tag() && s == key.spec_slot()))
                },
                None => {
                    &&& old(self).spec_get(key) is None
                    &&& *final(self) == *old(self)
                },
            },
    {
        let tag = T::tag();
        let ix = match self.group_index(tag) {
            Some(ix) => ix,
            None => {
                return None;
            },
        };
        let type_matches = {
            let group = &self.groups[ix].1;
            match group.get(Key::new(key.slot())) {
                Some(d) => T::from_dyn_ref(d).is_some(),
                None => false,
            }
        };
        if !type_matches {
            return None;
        }
        let group = &mut self.groups[ix].1;
        let d = group.remove(Key::new(key.slot())).unwrap();
        proof {
            T::to_from_dyn(T::spec_from_dyn(d).unwrap());
        }
        Some(T::from_dyn(d).unwrap())
    }

    /// Inserts a node and registers it under an identifier. The identifier
    /// can be used later to find the node, but it is only unique for nodes
    /// of type `T`: other node types can use the same identifier. If the
    /// identifier was already registered for this type, the index entry is
    /// replaced and the previously registered key is returned; the old slot
    /// itself stays reachable through its own key until removed.
    pub fn insert_with_id<T>(&mut self, id: I, node: T) -> (r: (Key<T>, Option<Key<T>>)) where
        T: BoundedBy<B>,
        requires
            old(self).wf(),
        ensures
            final(self).wf(),
            !old(self).group_slots(T::spec_tag()).contains_key(r.0.spec_slot()),
            !old(self).dead_at(T::spec_tag(), r.0.spec_slot()),
            final(self).group_slots(T::spec_tag()) == old(self).group_slots(T::spec_tag()).insert(
                r.0.spec_slot(),
                SlotState::Filled(T::spec_to_dyn(node)),
            ),
            forall|t: u64, s: SlotId| #[trigger] final(self).dead_at(t, s)
                == old(self).dead_at(t, s),
            final(self).group_ids(T::spec_tag())
                == old(self).group_ids(T::spec_tag()).insert(id@, r.0.spec_slot()),
            forall|t: u64| t != T::spec_tag()
                ==> #[trigger] final(self).group_slots(t) == old(self).group_slots(t),
            forall|t: u64| t != T::spec_tag()
                ==> #[trigger] final(self).group_ids(t) == old(self).group_ids(t),
            match r.1 {
                Some(prev) => old(self).group_ids(T::spec_tag()).contains_key(id@)
                    && prev.spec_slot() == old(self).group_ids(T::spec_tag())[id@],
                None => !old(self).group_ids(T::spec_tag()).contains_key(id@),
            },
    {
        let tag = T::tag();
        let ix = self.ensure_group(tag);
        let ghost mid = *self;
        let group = &mut self.groups[ix].1;
        let (k, prev) = group.insert_with_id(id, T::to_dyn(node));
        proof {
            assert forall|t: u64, s: SlotId| #[trigger] self.dead_at(t, s)
                == old(self).dead_at(t, s)
            by {
                assert(mid.dead_at(t, s) == old(self).dead_at(t, s));
            };
        }
        let prev = match prev {
            Some(p) => Some(Key::new(p.slot())),
            None => None,
        };
        (Key::new(k.slot()), prev)
    }

    /// Reserves a node slot for an identifier and node type `T`, to be
    /// filled later with [`Nodes::insert_reserved`]. The node is not
    /// accessible yet, but its key can already be requested with
    /// [`Nodes::get_key`]: reserving slots is what breaks circular
    /// references in the node graph. A previously registered key for the
    /// identifier is returned as with insertion.
    pub fn reserve_with_id<T>(&mut self, id: I) -> (r: (ReservedKey<T>, Option<Key<T>>)) where
        T: BoundedBy<B>,
        requires
            old(self).wf(),
        ensures
            final(self).wf(),
            !old(self).group_slots(T::spec_tag()).contains_key(r.0.spec_slot()),
            !old(self).dead_at(T::spec_tag(), r.0.spec_slot()),
            final(self).group_slots(T::spec_tag()) == old(self).group_slots(T::spec_tag()).insert(
                r.0.spec_slot(),
                SlotState::Reserved,
            ),
            forall|t: u64, s: SlotId| #[trigger] final(self).dead_at(t, s)
                == old(self).dead_at(t, s),
            final(self).group_ids(T::spec_tag())
                == old(self).group_ids(T::spec_tag()).insert(id@, r.0.spec_slot()),
            forall|t: u64| t != T::spec_tag()
                ==> #[trigger] final(self).group_slots(t) == old(self).group_slots(t),
            forall|t: u64| t != T::spec_tag()
                ==> #[trigger] final(self).group_ids(t) == old(self).group_ids(t),
            match r.1 {
                Some(prev) => old(self).group_ids(T::spec_tag()).contains_key(id@)
                    && prev.spec_slot() == old(self).group_ids(T::spec_tag())[id@],
                None => !old(self).group_ids(T::spec_tag()).contains_key(id@),
            },
    {
        let tag = T::tag();
        let ix = self.ensure_group(tag);
        let ghost mid = *self;
        let group = &mut self.groups[ix].1;
        let (rk, prev) = group.reserve_with_id(id);
        proof {
            assert forall|t: u64, s: SlotId| #[trigger] self.dead_at(t, s)
                == old(self).dead_at(t, s)
            by {
                assert(mid.dead_at(t, s) == old(self).dead_at(t, s));
            };
        }
        let prev = match prev {
            Some(p) => Some(Key::new(p.slot())),
            None => None,
        };
        (ReservedKey::new(rk.slot()), prev)
    }

    /// Looks up a value through the type-erased surface: the dynamic
    /// representation stored for the key's tag and slot.
    pub fn get_dyn(&self, key: DynKey) -> (r: Option<&B::DynSelf>)
        requires
            self.wf(),
        ensures
            match r {
                Some(d) => self.dyn_get(key) == Some(*d),
                None => self.dyn_get(key) is None,
            },
    {
        match self.group_index(key.node_type()) {
            Some(ix) => {
                let group = &self.groups[ix].1;
                group.get(Key::new(key.slot()))
            },
            None => None,
        }
    }

    /// Mutably looks up a value through the type-erased surface. Writing
    /// through the returned reference replaces the stored dynamic value;
    /// everything else is untouched.
    pub fn get_dyn_mut(&mut self, key: DynKey) -> (r: Option<&mut B::DynSelf>)
        requires
            old(self).wf(),
        ensures
            match r {
                Some(d) => {
                    &&& old(self).dyn_get(key) == Some(*d)
                    &&& final(self).wf()
                    &&& final(self).group_slots(key.spec_node_type())
                        == old(self).group_slots(key.spec_node_type()).insert(
                            key.spec_slot(),
                            SlotState::Filled(*final(d)),
                        )
                    &&& forall|t: u64| t != key.spec_node_type()
                        ==> #[trigger] final(self).group_slots(t) == old(self).group_slots(t)
                    &&& forall|t: u64| #[trigger] final(self).group_ids(t)
                        == old(self).group_ids(t)
                    &&& forall|t: u64, s: SlotId| #[trigger] final(self).dead_at(t, s)
                        == old(self).dead_at(t, s)
                },
                None => {
                    &&& old(self).dyn_get(key) is None
                    &&& final(self).wf()
                    &&& forall|t: u64| #[trigger] final(self).group_slots(t)
                        == old(self).group_slots(t)
                    &&& forall|t: u64| #[trigger] final(self).group_ids(t)
                        == old(self).group_ids(t)
                },
            },
    {
        let ix = match self.group_index(key.node_type()) {
            Some(ix) => ix,
            None => {
                return None;
            },
        };
        let group = &mut self.groups[ix].1;
        group.get_mut(Key::new(key.slot()))
    }

    /// A traversal over every value in the store, across all node types:
    /// yields each filled slot's dynamic key and value exactly once. The
    /// traversal is a snapshot: it does not observe later changes, and it
    /// yields exactly [`Nodes::traversal`], so a fresh pass over an
    /// unchanged store yields the same sequence again. Groups are visited
    /// in the order their types first appeared; slots within a group come
    /// in slot position order — the storage order, which is allocation
    /// order until a removed slot's position is reused.
    pub fn iter_dyn(&self) -> (it: IterDyn<'_, B::DynSelf>)
        requires
            self.wf(),
        ensures
            it.spec_pos() == 0,
            it.spec_entries().len() == self.traversal().len(),
            forall|i: int| 0 <= i < it.spec_entries().len()
                ==> (#[trigger] it.spec_entries()[i]).0 == self.traversal()[i].0
                    && *it.spec_entries()[i].1 == self.traversal()[i].1,
            forall|i: int| 0 <= i < it.spec_entries().len()
                ==> self.dyn_get((#[trigger] it.spec_entries()[i]).0)
                    == Some(*it.spec_entries()[i].1),
            forall|i: int, j: int| 0 <= i < j < it.spec_entries().len()
                ==> (#[trigger] it.spec_entries()[i]).0 != (#[trigger] it.spec_entries()[j]).0,
            forall|k: DynKey| #[trigger] self.dyn_get(k) is Some
                ==> exists|i: int|
                    0 <= i < it.spec_entries().len() && (#[trigger] it.spec_entries()[i]).0 == k,
            self.dyn_domain().finite(),
            it.spec_entries().len() == self.dyn_domain().len(),
    {
        let mut entries: Vec<(DynKey, &B::DynSelf)> = Vec::new();
        let mut gi: usize = 0;
        while gi < self.groups.len()
            invariant
                self.wf(),
                gi <= self.groups@.len(),
                forall|i: int| 0 <= i < entries@.len()
                    ==> self.dyn_get((#[trigger] entries@[i]).0) == Some(*entries@[i].1),
                forall|i: int| 0 <= i < entries@.len()
                    ==> self.tag_index@.contains_key((#[trigger] entries@[i]).0.spec_node_type())
                        && self.tag_index@[entries@[i].0.spec_node_type()] < gi,
                forall|i: int, j: int| 0 <= i < j < entries@.len()
                    ==> (#[trigger] entries@[i]).0 != (#[trigger] entries@[j]).0,
                forall|k: DynKey|
                    #[trigger] self.dyn_get(k) is Some
                        && self.tag_index@.contains_key(k.spec_node_type())
                        && self.tag_index@[k.spec_node_type()] < gi
                        ==> exists|i: int|
                            0 <= i < entries@.len() && (#[trigger] entries@[i]).0 == k,
                entries@.len() == Self::spec_groups_traversal(self.groups@, gi as int).len(),
                forall|i: int| 0 <= i < entries@.len()
                    ==> (#[trigger] entries@[i]).0
                        == Self::spec_groups_traversal(self.groups@, gi as int)[i].0
                        && *entries@[i].1
                            == Self::spec_groups_traversal(self.groups@, gi as int)[i].1,
            decreases self.groups@.len() - gi,
        {
            let tag = self.groups[gi].0;
            let part = self.groups[gi].1.filled_entries();
            let ghost entries0 = entries@;
            let mut pi: usize = 0;
            while pi < part.len()
                invariant
                    self.wf(),
                    gi < self.groups@.len(),
                    tag == self.groups@[gi as int].0,
                    self.tag_index@.contains_key(tag) && self.tag_index@[tag] == gi,
                    pi <= part@.len(),
                    forall|i: int| 0 <= i < part@.len()
                        ==> self.groups@[gi as int].1.spec_get((#[trigger] part@[i]).0)
                            == Some(*part@[i].1),
                    forall|i: int, j: int| 0 <= i < j < part@.len()
                        ==> (#[trigger] part@[i]).0.index < (#[trigger] part@[j]).0.index,
                    forall|s: SlotId|
                        self.groups@[gi as int].1.slots().contains_key(s)
                            && #[trigger] self.groups@[gi as int].1.slots()[s] is Filled
                            ==> exists|i: int|
                                0 <= i < part@.len() && (#[trigger] part@[i]).0 == s,
                    entries@.len() == entries0.len() + pi,
                    forall|i: int| 0 <= i < entries0.len()
                        ==> #[trigger] entries@[i] == entries0[i],
                    forall|i: int| entries0.len() <= i < entries@.len() ==> {
                        &&& (#[trigger] entries@[i]).0.spec_node_type() == tag
                        &&& entries@[i].0.spec_slot() == part@[i - entries0.len()].0
                        &&& entries@[i].1 == part@[i - entries0.len()].1
                    },
                    forall|i: int| 0 <= i < entries@.len()
                        ==> self.dyn_get((#[trigger] entries@[i]).0) == Some(*entries@[i].1),
                    forall|i: int| 0 <= i < entries0.len()
                        ==> self.tag_index@.contains_key((#[trigger] entries@[i]).0.spec_node_type())
                            && self.tag_index@[entries@[i].0.spec_node_type()] < gi,
                    forall|i: int, j: int| 0 <= i < j < entries@.len()
                        ==> (#[trigger] entries@[i]).0 != (#[trigger] entries@[j]).0,
                decreases part@.len() - pi,
            {
                let (s, d) = part[pi];
                entries.push((DynKey::from_parts(s, tag), d));
                pi = pi + 1;
            }
            gi = gi + 1;
            proof {
                let ghost gt = Self::spec_groups_traversal(self.groups@, gi as int);
                let ghost tagged = self.groups@[gi - 1].1.traversal().map_values(
                    |p: (SlotId, B::DynSelf)| (DynKey { slot: p.0, node_type: tag }, p.1),
                );
                assert(gt == Self::spec_groups_traversal(self.groups@, gi - 1) + tagged);
                assert(entries@.len() == gt.len());
                assert forall|i: int| 0 <= i < entries@.len()
                    implies (#[trigger] entries@[i]).0 == gt[i].0 && *entries@[i].1 == gt[i].1
                by {
                    if i >= entries0.len() {
                        let j = i - entries0.len();
                        assert(tagged[j]
                            == (DynKey {
                                slot: self.groups@[gi - 1].1.traversal()[j].0,
                                node_type: tag,
                            }, self.groups@[gi - 1].1.traversal()[j].1));
                        assert((part@[j]).0 == self.groups@[gi - 1].1.traversal()[j].0);
                        assert(*part@[j].1 == self.groups@[gi - 1].1.traversal()[j].1);
                    }
                };
                assert forall|k: DynKey|
                    #[trigger] self.dyn_get(k) is Some
                        && self.tag_index@.contains_key(k.spec_node_type())
                        && self.tag_index@[k.spec_node_type()] < gi
                        implies exists|i: int|
                            0 <= i < entries@.len() && (#[trigger] entries@[i]).0 == k
                by {
                    if self.tag_index@[k.spec_node_type()] == gi - 1 {
                        assert(self.groups@[gi - 1].0 == k.spec_node_type());
                        let s = k.spec_slot();
                        assert(self.groups@[gi - 1].1.slots().contains_key(s)
                            && self.groups@[gi - 1].1.slots()[s] is Filled);
                        let pj = choose|pj: int|
                            0 <= pj < part@.len() && (#[trigger] part@[pj]).0 == s;
                        DynKey::lemma_eq_is_parts_eq((entries@[entries0.len() + pj]).0, k);
                        assert((entries@[entries0.len() + pj]).0 == k);
                    } else {
                        let i = choose|i: int|
                            0 <= i < entries0.len() && (#[trigger] entries0[i]).0 == k;
                        assert((entries@[i]).0 == k);
                    }
                };
            }
        }
        proof {
            assert forall|k: DynKey| #[trigger] self.dyn_get(k) is Some
                implies self.tag_index@.contains_key(k.spec_node_type())
            by {
                assert(self.group_slots(k.spec_node_type()).contains_key(k.spec_slot()));
            };
            crate::laws::lemma_traversal_is_exact(*self, entries@);
        }
        IterDyn { entries, pos: 0 }
    }

    /// The same traversal as [`Nodes::iter_dyn`], with the keys discarded:
    /// every stored value, each exactly once.
    pub fn nodes_dyn(&self) -> (it: NodesDyn<'_, B::DynSelf>)
        requires
            self.wf(),
        ensures
            it.spec_pos() == 0,
            it.spec_entries().len() == self.traversal().len(),
            forall|i: int| 0 <= i < it.spec_entries().len()
                ==> (#[trigger] it.spec_entries()[i]).0 == self.traversal()[i].0
                    && *it.spec_entries()[i].1 == self.traversal()[i].1,
            forall|i: int| 0 <= i < it.spec_entries().len()
                ==> self.dyn_get((#[trigger] it.spec_entries()[i]).0)
                    == Some(*it.spec_entries()[i].1),
            forall|i: int, j: int| 0 <= i < j < it.spec_entries().len()
                ==> (#[trigger] it.spec_entries()[i]).0 != (#[trigger] it.spec_entries()[j]).0,
            forall|k: DynKey| #[trigger] self.dyn_get(k) is Some
                ==> exists|i: int|
                    0 <= i < it.spec_entries().len() && (#[trigger] it.spec_entries()[i]).0 == k,
            self.dyn_domain().finite(),
            it.spec_entries().len() == self.dyn_domain().len(),
    {
        NodesDyn { inner: self.iter_dyn() }
    }

    /// Finds the key registered for an identifier and node type `T`. The
    /// slot may still be reserved: the key is returned all the same, and
    /// [`Nodes::get`] tells whether the value exists yet.
    pub fn get_key<T>(&self, id: &I) -> (r: Option<Key<T>>) where T: BoundedBy<B>
        requires
            self.wf(),
        ensures
            match r {
                Some(k) => self.group_ids(T::spec_tag()).contains_key(id@)
                    && k.spec_slot() == self.group_ids(T::spec_tag())[id@],
                None => !self.group_ids(T::spec_tag()).contains_key(id@),
            },
    {
        let tag = T::tag();
        match self.group_index(tag) {
            Some(ix) => {
                let group = &self.groups[ix].1;
                match group.get_key(id) {
                    Some(k) => Some(Key::new(k.slot())),
                    None => None,
                }
            },
            None => None,
        }
    }
}

/// A snapshot traversal over every stored value, yielding dynamic keys
/// together with the values. Made by [`Nodes::iter_dyn`]; a fresh call makes
/// a fresh pass.
pub struct IterDyn<'a, D> {
    entries: Vec<(DynKey, &'a D)>,
    pos: usize,
}

impl<'a, D> IterDyn<'a, D> {
    /// The pairs this traversal yields, in order.
    pub closed spec fn spec_entries(self) -> Seq<(DynKey, &'a D)> {
        self.entries@
    }

    /// How many pairs have been yielded already.
    pub closed spec fn spec_pos(self) -> int {
        self.pos as int
    }

    /// The next pair of the traversal, or absence when every pair has been
    /// yielded.
    pub fn next(&mut self) -> (r: Option<(DynKey, &'a D)>)
        ensures
            final(self).spec_entries() == old(self).spec_entries(),
            match r {
                Some(p) => {
                    &&& old(self).spec_pos() < old(self).spec_entries().len()
                    &&& p == old(self).spec_entries()[old(self).spec_pos()]
                    &&& final(self).spec_pos() == old(self).spec_pos() + 1
                },
                None => {
                    &&& old(self).spec_pos() >= old(self).spec_entries().len()
                    &&& final(self).spec_pos() == old(self).spec_pos()
                },
            },
    {
        if self.pos < self.entries.len() {
            let p = self.entries[self.pos];
            self.pos = self.pos + 1;
            Some(p)
        } else {
            None
        }
    }
}

/// A snapshot traversal over every stored value, with the keys discarded.
/// Made by [`Nodes::nodes_dyn`].
pub struct NodesDyn<'a, D> {
    inner: IterDyn<'a, D>,
}

impl<'a, D> NodesDyn<'a, D> {
    /// The pairs behind this traversal, in order; only the values are
    /// yielded.
    pub closed spec fn spec_entries(self) -> Seq<(DynKey, &'a D)> {
        self.inner.spec_entries()
    }

    /// How many values have been yielded already.
    pub closed spec fn spec_pos(self) -> int {
        self.inner.spec_pos()
    }

    /// The next value of the traversal, or absence when every value has
    /// been yielded.
    pub fn next(&mut self) -> (r: Option<&'a D>)
        ensures
            final(self).spec_entries() == old(self).spec_entries(),
            match r {
                Some(d) => {
                    &&& old(self).spec_pos() < old(self).spec_entries().len()
                    &&& d == old(self).spec_entries()[old(self).spec_pos()].1
                    &&& final(self).spec_pos() == old(self).spec_pos() + 1
                },
                None => {
                    &&& old(self).spec_pos() >= old(self).spec_entries().len()
                    &&& final(self).spec_pos() == old(self).spec_pos()
                },
            },
    {
        match self.inner.next() {
            Some(p) => Some(p.1),
            None => None,
        }
    }
}

} // verus!
