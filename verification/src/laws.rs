//! Laws of the store: properties that relate several operations, stated
//! over the store's model and proved once for every instance.
//!
//! Each law quantifies over the states that the operations' own contracts
//! describe: a proof function takes the state before and after an operation
//! (related as the operation's `ensures` promises) and concludes what the
//! sequence of operations guarantees.

use vstd::prelude::*;
use vstd::seq_lib::seq_to_set_is_finite;
use core::hash::Hash;

use crate::bounds::{BoundedBy, Bounds};
use crate::node_group::{DynKey, Key, ReservedKey, SlotId, SlotState};
use crate::Nodes;

verus! {

/// Removal is isolated: when a value is removed, its own key stops
/// resolving, and no other key — typed or dynamic, of any node type —
/// resolves differently than before.
pub proof fn lemma_remove_isolation<I, B, T>(
    pre: Nodes<I, B>,
    post: Nodes<I, B>,
    key: Key<T>,
    removed: T,
) where I: View + Eq + Hash, B: Bounds, T: BoundedBy<B>
    requires
        pre.spec_get(key) == Some(removed),
        post.group_slots(T::spec_tag()) == pre.group_slots(T::spec_tag()).remove(key.spec_slot()),
        forall|t: u64| t != T::spec_tag()
            ==> #[trigger] post.group_slots(t) == pre.group_slots(t),
        forall|t: u64, s: SlotId| #[trigger] post.dead_at(t, s)
            == (pre.dead_at(t, s) || (t == T::spec_tag() && s == key.spec_slot())),
    ensures
        post.spec_get(key) is None,
        forall|k2: Key<T>| k2.spec_slot() != key.spec_slot()
            ==> #[trigger] post.spec_get(k2) == pre.spec_get(k2),
        forall|k: DynKey|
            !(k.spec_node_type() == T::spec_tag() && k.spec_slot() == key.spec_slot())
                ==> #[trigger] post.dyn_get(k) == pre.dyn_get(k),
        // the removed identity is retired for good
        post.dead_at(T::spec_tag(), key.spec_slot()),
{
}

/// A removed key is never handed out again: removal retires the removed
/// identity, every operation preserves or grows the retired set, and every
/// operation that allocates a slot promises an identity that is not
/// retired — so a key allocated after the removal, however many operations
/// later, differs from the removed key.
pub proof fn lemma_retired_key_is_never_reissued<I, B, T>(
    after_removal: Nodes<I, B>,
    later: Nodes<I, B>,
    removed: Key<T>,
    fresh: SlotId,
) where I: View + Eq + Hash, B: Bounds, T: BoundedBy<B>
    requires
        // the state right after the removal, and any state reached from it:
        // each operation's contract keeps every retired identity retired
        after_removal.dead_at(T::spec_tag(), removed.spec_slot()),
        forall|t: u64, s: SlotId| after_removal.dead_at(t, s)
            ==> #[trigger] later.dead_at(t, s),
        // what an allocating operation promises of its fresh slot
        !later.dead_at(T::spec_tag(), fresh),
    ensures
        fresh != removed.spec_slot(),
{
}

/// A slot reserved for an identifier is invisible until filled: right after
/// the reservation the identifier already resolves to a key, but that key
/// resolves to absence; once the reservation is filled, the same key
/// resolves to the inserted value.
pub proof fn lemma_reserved_invisible_until_filled<I, B, T>(
    s0: Nodes<I, B>,
    s1: Nodes<I, B>,
    s2: Nodes<I, B>,
    id: I,
    rk: ReservedKey<T>,
    value: T,
) where I: View + Eq + Hash, B: Bounds, T: BoundedBy<B>
    requires
        // s1 is s0 after reserving a fresh slot for the identifier
        !s0.group_slots(T::spec_tag()).contains_key(rk.spec_slot()),
        s1.group_slots(T::spec_tag()) == s0.group_slots(T::spec_tag()).insert(
            rk.spec_slot(),
            SlotState::Reserved,
        ),
        s1.group_ids(T::spec_tag()) == s0.group_ids(T::spec_tag()).insert(id@, rk.spec_slot()),
        // s2 is s1 after filling the reservation with the value
        s2.group_slots(T::spec_tag()) == s1.group_slots(T::spec_tag()).insert(
            rk.spec_slot(),
            SlotState::Filled(T::spec_to_dyn(value)),
        ),
        s2.group_ids(T::spec_tag()) == s1.group_ids(T::spec_tag()),
    ensures
        // the identifier resolves to the reservation's slot already
        s1.group_ids(T::spec_tag()).contains_key(id@),
        s1.group_ids(T::spec_tag())[id@] == rk.spec_slot(),
        // and still does after the fill
        s2.group_ids(T::spec_tag()).contains_key(id@),
        s2.group_ids(T::spec_tag())[id@] == rk.spec_slot(),
        // but the key for that slot resolves to absence until the fill
        forall|k: Key<T>| #[trigger] k.spec_slot() == rk.spec_slot()
            ==> s1.spec_get(k) is None,
        // after the fill, the same key resolves to the inserted value
        forall|k: Key<T>| #[trigger] k.spec_slot() == rk.spec_slot()
            ==> s2.spec_get(k) == Some(value),
{
    T::to_from_dyn(value);
}

/// Registering the same identifier twice replaces the index entry only: the
/// second registration reports the first slot as the previous entry, the
/// identifier thereafter resolves to the second slot, and the first slot
/// still resolves to its value — it must be removed explicitly if its
/// storage is to be reclaimed.
pub proof fn lemma_insert_with_id_overwrites_index_only<I, B, T>(
    s0: Nodes<I, B>,
    s1: Nodes<I, B>,
    s2: Nodes<I, B>,
    id: I,
    k1: Key<T>,
    v1: T,
    k2: Key<T>,
    v2: T,
) where I: View + Eq + Hash, B: Bounds, T: BoundedBy<B>
    requires
        // s1 is s0 after inserting v1 under the identifier, yielding k1
        !s0.group_slots(T::spec_tag()).contains_key(k1.spec_slot()),
        s1.group_slots(T::spec_tag()) == s0.group_slots(T::spec_tag()).insert(
            k1.spec_slot(),
            SlotState::Filled(T::spec_to_dyn(v1)),
        ),
        s1.group_ids(T::spec_tag()) == s0.group_ids(T::spec_tag()).insert(id@, k1.spec_slot()),
        // s2 is s1 after inserting v2 under the same identifier, yielding k2
        !s1.group_slots(T::spec_tag()).contains_key(k2.spec_slot()),
        s2.group_slots(T::spec_tag()) == s1.group_slots(T::spec_tag()).insert(
            k2.spec_slot(),
            SlotState::Filled(T::spec_to_dyn(v2)),
        ),
        s2.group_ids(T::spec_tag()) == s1.group_ids(T::spec_tag()).insert(id@, k2.spec_slot()),
    ensures
        // what the second insertion reports as the previous key is k1's slot
        s1.group_ids(T::spec_tag()).contains_key(id@),
        s1.group_ids(T::spec_tag())[id@] == k1.spec_slot(),
        // the identifier now resolves to the second slot
        s2.group_ids(T::spec_tag()).contains_key(id@),
        s2.group_ids(T::spec_tag())[id@] == k2.spec_slot(),
        // the two keys are distinct, and the first still resolves to v1
        k1.spec_slot() != k2.spec_slot(),
        s1.spec_get(k1) == Some(v1),
        s2.spec_get(k1) == Some(v1),
        s2.spec_get(k2) == Some(v2),
{
    T::to_from_dyn(v1);
    T::to_from_dyn(v2);
}

/// Identifiers are scoped per node type: an operation on one node type's
/// group leaves every other type's slots and identifier index untouched, so
/// the same identifier names independent slots for different types.
pub proof fn lemma_ids_scoped_by_type<I, B, T1, T2>(
    pre: Nodes<I, B>,
    post: Nodes<I, B>,
) where I: View + Eq + Hash, B: Bounds, T1: BoundedBy<B>, T2: BoundedBy<B>
    requires
        // the two node types carry distinct runtime tags
        T1::spec_tag() != T2::spec_tag(),
        // post is pre after any operation of type T1: every other tag's
        // group is unchanged, as each operation's contract promises
        forall|t: u64| t != T1::spec_tag()
            ==> #[trigger] post.group_slots(t) == pre.group_slots(t),
        forall|t: u64| t != T1::spec_tag()
            ==> #[trigger] post.group_ids(t) == pre.group_ids(t),
    ensures
        post.group_ids(T2::spec_tag()) == pre.group_ids(T2::spec_tag()),
        forall|k: Key<T2>| #[trigger] post.spec_get(k) == pre.spec_get(k),
{
}

/// A full traversal is exact: a pass whose pairs resolve correctly, cover
/// every resolvable dynamic key, and repeat none, yields exactly as many
/// pairs as the store holds values.
pub proof fn lemma_traversal_is_exact<'a, I, B>(
    store: Nodes<I, B>,
    entries: Seq<(DynKey, &'a B::DynSelf)>,
) where I: View + Eq + Hash, B: Bounds
    requires
        forall|i: int| 0 <= i < entries.len()
            ==> store.dyn_get((#[trigger] entries[i]).0) == Some(*entries[i].1),
        forall|i: int, j: int| 0 <= i < j < entries.len()
            ==> (#[trigger] entries[i]).0 != (#[trigger] entries[j]).0,
        forall|k: DynKey| #[trigger] store.dyn_get(k) is Some
            ==> exists|i: int| 0 <= i < entries.len() && (#[trigger] entries[i]).0 == k,
    ensures
        store.dyn_domain().finite(),
        entries.len() == store.dyn_domain().len(),
{
    broadcast use seq_to_set_is_finite;

    let keys = entries.map_values(|p: (DynKey, &'a B::DynSelf)| p.0);
    assert forall|i: int, j: int| 0 <= i < j < keys.len()
        implies keys[i] != keys[j]
    by {
        assert((entries[i]).0 != (entries[j]).0);
    };
    assert(keys.no_duplicates());
    keys.unique_seq_to_set();
    assert forall|k: DynKey| #[trigger] store.dyn_domain().contains(k)
        implies keys.to_set().contains(k)
    by {
        let i = choose|i: int| 0 <= i < entries.len() && (#[trigger] entries[i]).0 == k;
        assert(keys[i] == k);
    };
    assert forall|k: DynKey| #[trigger] keys.to_set().contains(k)
        implies store.dyn_domain().contains(k)
    by {
        let i = choose|i: int| 0 <= i < keys.len() && keys[i] == k;
        assert(store.dyn_get((entries[i]).0) is Some);
    };
    assert(keys.to_set() =~= store.dyn_domain());
}

} // verus!
