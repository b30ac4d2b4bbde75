//! Building two nodes that reference each other: the reservation protocol
//! hands out a key for a node before the node exists, so the cycle can be
//! closed without special ordering.

use typed_nodes::bounds::{Bounds, BoundsFor, NodeType};
use typed_nodes::{Key, Nodes};

struct Left {
    partner: Key<Right>,
    name: &'static str,
}

struct Right {
    partner: Key<Left>,
    name: &'static str,
}

enum Graph {
    Left(Left),
    Right(Right),
}

struct GraphBounds;

impl NodeType for Left {
    fn spec_tag() -> u64 {
        1
    }

    fn tag() -> u64 {
        1
    }
}

impl NodeType for Right {
    fn spec_tag() -> u64 {
        2
    }

    fn tag() -> u64 {
        2
    }
}

impl Bounds for GraphBounds {
    type DynSelf = Graph;
}

impl BoundsFor<Left> for GraphBounds {
    fn spec_wrap(value: Left) -> Graph {
        Graph::Left(value)
    }

    fn spec_unwrap(value: Graph) -> Option<Left> {
        match value {
            Graph::Left(v) => Some(v),
            _ => None,
        }
    }

    fn wrap_unwrap(_value: Left) {}

    fn wrap(value: Left) -> Graph {
        Graph::Left(value)
    }

    fn unwrap(value: Graph) -> Option<Left> {
        match value {
            Graph::Left(v) => Some(v),
            _ => None,
        }
    }

    fn unwrap_ref(value: &Graph) -> Option<&Left> {
        match value {
            Graph::Left(v) => Some(v),
            _ => None,
        }
    }

    fn unwrap_mut(value: &mut Graph) -> Option<&mut Left> {
        match value {
            Graph::Left(v) => Some(v),
            _ => None,
        }
    }
}

impl BoundsFor<Right> for GraphBounds {
    fn spec_wrap(value: Right) -> Graph {
        Graph::Right(value)
    }

    fn spec_unwrap(value: Graph) -> Option<Right> {
        match value {
            Graph::Right(v) => Some(v),
            _ => None,
        }
    }

    fn wrap_unwrap(_value: Right) {}

    fn wrap(value: Right) -> Graph {
        Graph::Right(value)
    }

    fn unwrap(value: Graph) -> Option<Right> {
        match value {
            Graph::Right(v) => Some(v),
            _ => None,
        }
    }

    fn unwrap_ref(value: &Graph) -> Option<&Right> {
        match value {
            Graph::Right(v) => Some(v),
            _ => None,
        }
    }

    fn unwrap_mut(value: &mut Graph) -> Option<&mut Right> {
        match value {
            Graph::Right(v) => Some(v),
            _ => None,
        }
    }
}

#[test]
fn a_cycle_is_built_through_a_reservation() {
    let mut nodes: Nodes<u64, GraphBounds> = Nodes::new();

    // the left node is mentioned first, before it can be built: reserve its
    // slot and take its key
    let (reservation, _) = nodes.reserve_with_id::<Left>(1);
    let left_key = nodes.get_key::<Left>(&1).expect("the reservation has a key");

    // the right node can now be built, holding the left node's key
    let (right_key, _) = nodes.insert_with_id(1, Right { partner: left_key, name: "right" });

    // the left node is invisible until the reservation is filled
    assert!(nodes.get(left_key).is_none());

    // close the cycle
    let filled_key = nodes.insert_reserved(reservation, Left { partner: right_key, name: "left" });
    assert!(filled_key == left_key);

    // both nodes resolve, and each one's partner key resolves to the other
    let left = nodes.get(left_key).expect("the left node exists now");
    assert_eq!(left.name, "left");
    let right = nodes.get(left.partner).expect("the left node points at the right node");
    assert_eq!(right.name, "right");
    let left_again = nodes.get(right.partner).expect("the right node points back");
    assert_eq!(left_again.name, "left");
}
