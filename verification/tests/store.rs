use typed_nodes::bounds::{Bounds, BoundsFor, NodeType};
use typed_nodes::{DynKey, Key, Nodes};

#[derive(Debug, PartialEq, Clone)]
struct A(String);

#[derive(Debug, PartialEq, Clone)]
struct B(String);

#[derive(Debug, PartialEq, Clone)]
enum Universe {
    A(A),
    B(B),
}

struct UniBounds;

impl NodeType for A {
    fn spec_tag() -> u64 {
        1
    }

    fn tag() -> u64 {
        1
    }
}

impl NodeType for B {
    fn spec_tag() -> u64 {
        2
    }

    fn tag() -> u64 {
        2
    }
}

impl Bounds for UniBounds {
    type DynSelf = Universe;
}

impl BoundsFor<A> for UniBounds {
    fn spec_wrap(value: A) -> Universe {
        Universe::A(value)
    }

    fn spec_unwrap(value: Universe) -> Option<A> {
        match value {
            Universe::A(v) => Some(v),
            _ => None,
        }
    }

    fn wrap_unwrap(_value: A) {}

    fn wrap(value: A) -> Universe {
        Universe::A(value)
    }

    fn unwrap(value: Universe) -> Option<A> {
        match value {
            Universe::A(v) => Some(v),
            _ => None,
        }
    }

    fn unwrap_ref(value: &Universe) -> Option<&A> {
        match value {
            Universe::A(v) => Some(v),
            _ => None,
        }
    }

    fn unwrap_mut(value: &mut Universe) -> Option<&mut A> {
        match value {
            Universe::A(v) => Some(v),
            _ => None,
        }
    }
}

impl BoundsFor<B> for UniBounds {
    fn spec_wrap(value: B) -> Universe {
        Universe::B(value)
    }

    fn spec_unwrap(value: Universe) -> Option<B> {
        match value {
            Universe::B(v) => Some(v),
            _ => None,
        }
    }

    fn wrap_unwrap(_value: B) {}

    fn wrap(value: B) -> Universe {
        Universe::B(value)
    }

    fn unwrap(value: Universe) -> Option<B> {
        match value {
            Universe::B(v) => Some(v),
            _ => None,
        }
    }

    fn unwrap_ref(value: &Universe) -> Option<&B> {
        match value {
            Universe::B(v) => Some(v),
            _ => None,
        }
    }

    fn unwrap_mut(value: &mut Universe) -> Option<&mut B> {
        match value {
            Universe::B(v) => Some(v),
            _ => None,
        }
    }
}

fn store() -> Nodes<u64, UniBounds> {
    Nodes::new()
}

#[test]
fn insert_then_get_returns_value() {
    let mut nodes = store();
    let k = nodes.insert(A("x".to_string()));
    assert_eq!(nodes.get(k), Some(&A("x".to_string())));
}

#[test]
fn reserve_then_fill_scenario() {
    // Insert A("x") with id 1 getting k1; reserve id 2 getting r2; before
    // filling, the key for id 2 exists but resolves to nothing; after
    // filling, it resolves to the inserted value.
    let mut nodes = store();
    let (k1, prev) = nodes.insert_with_id(1, A("x".to_string()));
    assert!(prev.is_none());
    assert_eq!(nodes.get(k1), Some(&A("x".to_string())));

    let (r2, prev2) = nodes.reserve_with_id::<A>(2);
    assert!(prev2.is_none());
    let k2 = nodes.get_key::<A>(&2).expect("the reserved id should resolve to a key");
    assert_eq!(nodes.get(k2), None);

    let filled = nodes.insert_reserved(r2, A("y".to_string()));
    assert_eq!(filled, k2);
    assert_eq!(nodes.get(k2), Some(&A("y".to_string())));
}

#[test]
fn remove_clears_key_and_id() {
    // Remove k1; then its key and its id both stop resolving.
    let mut nodes = store();
    let (k1, _) = nodes.insert_with_id(1, A("x".to_string()));
    assert_eq!(nodes.remove(k1), Some(A("x".to_string())));
    assert_eq!(nodes.get(k1), None);
    assert_eq!(nodes.get_key::<A>(&1), None);
}

#[test]
fn remove_leaves_other_keys_alone() {
    let mut nodes = store();
    let k1 = nodes.insert(A("one".to_string()));
    let k2 = nodes.insert(A("two".to_string()));
    let k3 = nodes.insert(B("three".to_string()));
    assert_eq!(nodes.remove(k2), Some(A("two".to_string())));
    assert_eq!(nodes.get(k2), None);
    assert_eq!(nodes.get(k1), Some(&A("one".to_string())));
    assert_eq!(nodes.get(k3), Some(&B("three".to_string())));
}

#[test]
fn removed_key_does_not_see_reused_slot() {
    let mut nodes = store();
    let k1 = nodes.insert(A("first".to_string()));
    assert_eq!(nodes.remove(k1), Some(A("first".to_string())));
    // the freed slot may be reused for the next insertion, but the old key
    // must keep resolving to nothing
    let k2 = nodes.insert(A("second".to_string()));
    assert_eq!(nodes.get(k1), None);
    assert_eq!(nodes.get(k2), Some(&A("second".to_string())));
}

#[test]
fn removing_a_reserved_slot_is_a_no_op() {
    let mut nodes = store();
    let (_r, _) = nodes.reserve_with_id::<A>(5);
    let k = nodes.get_key::<A>(&5).unwrap();
    assert_eq!(nodes.remove(k), None);
    // the reservation is still registered
    assert_eq!(nodes.get_key::<A>(&5), Some(k));
}

#[test]
fn insert_with_id_overwrites_index_only() {
    // The second insertion under one id reports the first key as previous;
    // the id resolves to the second key; the first key still resolves to
    // its value until removed.
    let mut nodes = store();
    let (k1, prev1) = nodes.insert_with_id(1, A("v1".to_string()));
    assert!(prev1.is_none());
    let (k2, prev2) = nodes.insert_with_id(1, A("v2".to_string()));
    assert_eq!(prev2, Some(k1));
    assert_eq!(nodes.get_key::<A>(&1), Some(k2));
    assert_eq!(nodes.get(k1), Some(&A("v1".to_string())));
    assert_eq!(nodes.get(k2), Some(&A("v2".to_string())));
}

#[test]
fn ids_are_scoped_per_type() {
    // Two concrete types using the same id value do not collide.
    let mut nodes = store();
    let (ka, _) = nodes.insert_with_id(1, A("a".to_string()));
    let (kb, _) = nodes.insert_with_id(1, B("b".to_string()));
    assert_eq!(nodes.get_key::<A>(&1), Some(ka));
    assert_eq!(nodes.get_key::<B>(&1), Some(kb));
    assert_eq!(nodes.get(ka), Some(&A("a".to_string())));
    assert_eq!(nodes.get(kb), Some(&B("b".to_string())));
    // removing the A entry leaves the B entry alone
    assert_eq!(nodes.remove(ka), Some(A("a".to_string())));
    assert_eq!(nodes.get_key::<A>(&1), None);
    assert_eq!(nodes.get_key::<B>(&1), Some(kb));
}

#[test]
fn get_mut_updates_in_place() {
    let mut nodes = store();
    let k = nodes.insert(A("before".to_string()));
    {
        let v = nodes.get_mut(k).unwrap();
        v.0 = "after".to_string();
    }
    assert_eq!(nodes.get(k), Some(&A("after".to_string())));
}

#[test]
fn get_mut_of_wrong_type_is_absent() {
    let mut nodes = store();
    let k = nodes.insert(A("a".to_string()));
    // a B key forged onto the same slot identity resolves to nothing
    let dyn_key = DynKey::new::<A>(k);
    assert!(dyn_key.into_static::<B>().is_none());
}

#[test]
fn dyn_key_into_static_checks_the_type() {
    // The downcast succeeds exactly for the type the key was made for.
    let mut nodes = store();
    let k: Key<A> = nodes.insert(A("x".to_string()));
    let dyn_key = DynKey::new::<A>(k);
    let back: Option<Key<A>> = dyn_key.into_static::<A>();
    assert_eq!(back, Some(k));
    assert!(dyn_key.into_static::<B>().is_none());
}

#[test]
fn get_dyn_resolves_like_typed_get() {
    let mut nodes = store();
    let k = nodes.insert(A("x".to_string()));
    let dyn_key = DynKey::new::<A>(k);
    assert_eq!(nodes.get_dyn(dyn_key), Some(&Universe::A(A("x".to_string()))));
    assert_eq!(nodes.get_dyn_mut(dyn_key), Some(&mut Universe::A(A("x".to_string()))));
}

#[test]
fn get_dyn_mut_updates_in_place() {
    let mut nodes = store();
    let k = nodes.insert(A("before".to_string()));
    let dyn_key = DynKey::new::<A>(k);
    if let Some(Universe::A(v)) = nodes.get_dyn_mut(dyn_key) {
        v.0 = "after".to_string();
    } else {
        panic!("the dynamic key should resolve");
    }
    assert_eq!(nodes.get(k), Some(&A("after".to_string())));
}

#[test]
fn iter_dyn_yields_every_value_once() {
    // A store with values across two types yields exactly as many pairs as
    // it holds values, every dynamic key unique, and each pair resolving to
    // what the typed surface returns.
    let mut nodes = store();
    let ka1 = nodes.insert(A("a1".to_string()));
    let ka2 = nodes.insert(A("a2".to_string()));
    let kb1 = nodes.insert(B("b1".to_string()));
    let (_r, _) = nodes.reserve_with_id::<B>(9); // reserved slots are invisible

    let mut it = nodes.iter_dyn();
    let mut pairs = Vec::new();
    while let Some((key, value)) = it.next() {
        pairs.push((key, value));
    }
    assert_eq!(pairs.len(), 3);
    for i in 0..pairs.len() {
        for j in 0..i {
            assert_ne!(pairs[i].0, pairs[j].0);
        }
        assert_eq!(nodes.get_dyn(pairs[i].0), Some(pairs[i].1));
    }
    let expect_contains = |k: DynKey, v: Universe| {
        assert!(pairs.iter().any(|(pk, pv)| *pk == k && **pv == v));
    };
    expect_contains(DynKey::new::<A>(ka1), Universe::A(A("a1".to_string())));
    expect_contains(DynKey::new::<A>(ka2), Universe::A(A("a2".to_string())));
    expect_contains(DynKey::new::<B>(kb1), Universe::B(B("b1".to_string())));
}

#[test]
fn nodes_dyn_yields_the_values() {
    let mut nodes = store();
    nodes.insert(A("a".to_string()));
    nodes.insert(B("b".to_string()));
    let mut it = nodes.nodes_dyn();
    let mut values = Vec::new();
    while let Some(value) = it.next() {
        values.push(value.clone());
    }
    assert_eq!(values.len(), 2);
    assert!(values.contains(&Universe::A(A("a".to_string()))));
    assert!(values.contains(&Universe::B(B("b".to_string()))));
}

#[test]
fn string_ids_work() {
    let mut nodes: Nodes<String, UniBounds> = Nodes::new();
    let (k, _) = nodes.insert_with_id("left".to_string(), A("x".to_string()));
    assert_eq!(nodes.get_key::<A>(&"left".to_string()), Some(k));
    assert_eq!(nodes.get_key::<A>(&"right".to_string()), None);
}

#[test]
fn keys_compare_by_slot_identity() {
    let mut nodes = store();
    let k1 = nodes.insert(A("x".to_string()));
    let k2 = nodes.insert(A("y".to_string()));
    assert_ne!(k1, k2);
    assert_eq!(k1, k1);
    assert_eq!(k1.slot(), k1.slot());
    assert_ne!(k1.slot(), k2.slot());
}

#[derive(Debug, PartialEq, Clone)]
struct Impostor(u64);

// Deliberately reuses A's tag: distinct node types used with one store must
// use distinct tags, and this is what happens when they do not.
impl NodeType for Impostor {
    fn spec_tag() -> u64 {
        1
    }

    fn tag() -> u64 {
        1
    }
}

impl BoundsFor<Impostor> for UniBounds {
    fn spec_wrap(value: Impostor) -> Universe {
        Universe::B(B(value.0.to_string()))
    }

    fn spec_unwrap(value: Universe) -> Option<Impostor> {
        match value {
            Universe::B(b) => b.0.parse().ok().map(Impostor),
            _ => None,
        }
    }

    fn wrap_unwrap(_value: Impostor) {}

    fn wrap(value: Impostor) -> Universe {
        Universe::B(B(value.0.to_string()))
    }

    fn unwrap(value: Universe) -> Option<Impostor> {
        match value {
            Universe::B(b) => b.0.parse().ok().map(Impostor),
            _ => None,
        }
    }

    fn unwrap_ref(value: &Universe) -> Option<&Impostor> {
        match value {
            Universe::B(_) => None,
            _ => None,
        }
    }

    fn unwrap_mut(value: &mut Universe) -> Option<&mut Impostor> {
        match value {
            Universe::B(_) => None,
            _ => None,
        }
    }
}

#[test]
fn a_tag_collision_resolves_to_absence() {
    // A value of another representation under the same tag is not returned
    // by the typed surface, and removing through the wrong type is a no-op.
    let mut nodes = store();
    let k = nodes.insert(A("x".to_string()));
    let forged: Key<Impostor> = DynKey::new::<A>(k).into_static::<Impostor>().unwrap();
    assert_eq!(nodes.get(forged), None);
    assert_eq!(nodes.remove(forged), None);
    assert_eq!(nodes.get(k), Some(&A("x".to_string())));
}

#[test]
fn an_empty_store_yields_nothing() {
    let nodes = store();
    let mut it = nodes.iter_dyn();
    assert!(it.next().is_none());
    let mut values = nodes.nodes_dyn();
    assert!(values.next().is_none());
    assert_eq!(nodes.get_key::<A>(&1), None);
}

#[test]
fn dyn_key_from_typed_key() {
    let mut nodes = store();
    let k = nodes.insert(A("x".to_string()));
    let converted: DynKey = DynKey::from(k);
    assert_eq!(converted, DynKey::new::<A>(k));
    assert_eq!(nodes.get_dyn(converted), Some(&Universe::A(A("x".to_string()))));
}

#[test]
fn reserved_keys_compare_by_slot_identity() {
    let mut nodes = store();
    let (r1, _) = nodes.reserve_with_id::<A>(1);
    let (r2, _) = nodes.reserve_with_id::<A>(2);
    assert!(r1 == r1);
    assert!(r1 != r2);
}

#[test]
fn two_passes_yield_the_same_sequence() {
    // the traversal is a function of the store alone: a fresh pass over an
    // unchanged store repeats the first one exactly
    let mut nodes = store();
    nodes.insert(A("a1".to_string()));
    nodes.insert(B("b1".to_string()));
    let (removed, _) = nodes.insert_with_id(7, A("gone".to_string()));
    nodes.remove(removed);
    nodes.insert(A("a2".to_string()));

    let mut first = nodes.iter_dyn();
    let mut second = nodes.iter_dyn();
    loop {
        match (first.next(), second.next()) {
            (Some((k1, v1)), Some((k2, v2))) => {
                assert_eq!(k1, k2);
                assert_eq!(v1, v2);
            },
            (None, None) => break,
            _ => panic!("the two passes should have the same length"),
        }
    }
}

#[test]
fn nodes_dyn_follows_iter_dyn_order() {
    let mut nodes = store();
    nodes.insert(A("a1".to_string()));
    nodes.insert(B("b1".to_string()));
    nodes.insert(A("a2".to_string()));
    let mut keyed = nodes.iter_dyn();
    let mut keyless = nodes.nodes_dyn();
    while let Some((_, v1)) = keyed.next() {
        let v2 = keyless.next().expect("the key-less pass keeps pace");
        assert_eq!(v1, v2);
    }
    assert!(keyless.next().is_none());
}
