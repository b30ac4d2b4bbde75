//! Capability bounds: how an open set of concrete node types is stored and
//! viewed behind one uniform, caller-chosen representation.
//!
//! A [`Bounds`] value names a dynamic representation, `DynSelf`: the single
//! type every stored node is converted into at the store's boundary. A
//! concrete node type takes part by implementing [`NodeType`] (a runtime type
//! tag) and by being wrapped and unwrapped through [`BoundsFor`]; the derived
//! trait [`BoundedBy`] is what the store's typed operations require. The
//! wrap/unwrap pair must form a partial inverse, which every implementation
//! proves; the store's typed lookups rely on it.

use vstd::prelude::*;

verus! {

/// A runtime identity for a concrete node type: a tag that stands in for the
/// type at the store's type-erased boundary. Distinct node types used with
/// one store must use distinct tags; the tag plays the role a built-in
/// type identifier would play, chosen explicitly by each implementation.
pub trait NodeType: Sized + 'static {
    /// The tag as the specification sees it.
    spec fn spec_tag() -> u64;

    /// The tag at run time.
    fn tag() -> (t: u64)
        ensures
            t == Self::spec_tag(),
    ;
}

/// A set of capability bounds: declares the uniform dynamic representation
/// that every node stored under these bounds is viewed as.
pub trait Bounds: Sized + 'static {
    /// The dynamic representation, shared by all node types stored under
    /// these bounds.
    type DynSelf;
}

/// Makes the bounds' dynamic representation available for one concrete node
/// type `T`: wrapping a `T` into a `DynSelf` and projecting it back out.
/// Implemented by a bounds type for each node type it accepts.
pub trait BoundsFor<T: NodeType>: Bounds {
    /// What wrapping a value produces.
    spec fn spec_wrap(value: T) -> Self::DynSelf;

    /// What unwrapping a dynamic value produces: the original value for a
    /// value wrapped from `T`, absence for anything else.
    spec fn spec_unwrap(value: Self::DynSelf) -> Option<T>;

    /// Unwrapping inverts wrapping.
    proof fn wrap_unwrap(value: T)
        ensures
            Self::spec_unwrap(Self::spec_wrap(value)) == Some(value),
    ;

    /// Wrap a value into the dynamic representation.
    fn wrap(value: T) -> (r: Self::DynSelf)
        ensures
            r == Self::spec_wrap(value),
    ;

    /// Recover the value wrapped from `T`, if this dynamic value was one.
    fn unwrap(value: Self::DynSelf) -> (r: Option<T>)
        ensures
            r == Self::spec_unwrap(value),
    ;

    /// Borrow the wrapped value, if this dynamic value was wrapped from `T`.
    fn unwrap_ref(value: &Self::DynSelf) -> (r: Option<&T>)
        ensures
            match r {
                Some(v) => Self::spec_unwrap(*value) == Some(*v),
                None => Self::spec_unwrap(*value) is None,
            },
    ;

    /// Mutably borrow the wrapped value, if this dynamic value was wrapped
    /// from `T`. Writing through the returned reference rewraps the written
    /// value.
    fn unwrap_mut(value: &mut Self::DynSelf) -> (r: Option<&mut T>)
        ensures
            match r {
                Some(v) => {
                    &&& Self::spec_unwrap(*old(value)) == Some(*v)
                    &&& *final(value) == Self::spec_wrap(*final(v))
                },
                None => {
                    &&& Self::spec_unwrap(*old(value)) is None
                    &&& *final(value) == *old(value)
                },
            },
    ;
}

/// A concrete node type that may be stored under the bounds `B`: the view of
/// [`BoundsFor`] from the node type's side, which the store's typed
/// operations require. Implemented once for every `(T, B)` with
/// `B: BoundsFor<T>`.
pub trait BoundedBy<B: Bounds>: NodeType {
    /// What wrapping a value produces.
    spec fn spec_to_dyn(value: Self) -> B::DynSelf;

    /// What unwrapping a dynamic value produces.
    spec fn spec_from_dyn(value: B::DynSelf) -> Option<Self>;

    /// Unwrapping inverts wrapping.
    proof fn to_from_dyn(value: Self)
        ensures
            Self::spec_from_dyn(Self::spec_to_dyn(value)) == Some(value),
    ;

    /// Wrap a value into the dynamic representation.
    fn to_dyn(value: Self) -> (r: B::DynSelf)
        ensures
            r == Self::spec_to_dyn(value),
    ;

    /// Recover a value of this type from the dynamic representation.
    fn from_dyn(value: B::DynSelf) -> (r: Option<Self>)
        ensures
            r == Self::spec_from_dyn(value),
    ;

    /// Borrow the wrapped value, if it was wrapped from this type.
    fn from_dyn_ref(value: &B::DynSelf) -> (r: Option<&Self>)
        ensures
            match r {
                Some(v) => Self::spec_from_dyn(*value) == Some(*v),
                None => Self::spec_from_dyn(*value) is None,
            },
    ;

    /// Mutably borrow the wrapped value, if it was wrapped from this type.
    fn from_dyn_mut(value: &mut B::DynSelf) -> (r: Option<&mut Self>)
        ensures
            match r {
                Some(v) => {
                    &&& Self::spec_from_dyn(*old(value)) == Some(*v)
                    &&& *final(value) == Self::spec_to_dyn(*final(v))
                },
                None => {
                    &&& Self::spec_from_dyn(*old(value)) is None
                    &&& *final(value) == *old(value)
                },
            },
    ;
}

impl<T: NodeType, B: BoundsFor<T>> BoundedBy<B> for T {
    open spec fn spec_to_dyn(value: Self) -> B::DynSelf {
        B::spec_wrap(value)
    }

    open spec fn spec_from_dyn(value: B::DynSelf) -> Option<Self> {
        B::spec_unwrap(value)
    }

    proof fn to_from_dyn(value: Self) {
        B::wrap_unwrap(value);
    }

    fn to_dyn(value: Self) -> (r: B::DynSelf) {
        B::wrap(value)
    }

    fn from_dyn(value: B::DynSelf) -> (r: Option<Self>) {
        B::unwrap(value)
    }

    fn from_dyn_ref(value: &B::DynSelf) -> (r: Option<&Self>) {
        B::unwrap_ref(value)
    }

    fn from_dyn_mut(value: &mut B::DynSelf) -> (r: Option<&mut Self>) {
        B::unwrap_mut(value)
    }
}

} // verus!
