//! A small entity-component-system runtime: typed per-entity data kept in growable tables,
//! and an engine that runs systems over it in a fixed order of stages, once per frame.

pub mod component_store;
pub mod components;
pub mod engine;
pub mod iqm;
pub mod loader;
pub mod pairs;
pub mod sexpr;
pub mod unsafe_option_vec;

pub use crate::component_store::{ComponentStore, StoreModel};
pub use crate::engine::{Engine, EnginePassBuilder, Mut, Par, System, SystemMut};

use crate::unsafe_option_vec::opt_deref;
use vstd::prelude::*;

verus! {

/// An entity: a non-zero integer handle, with no data of its own.
#[derive(Clone, Copy, Debug, PartialEq, Eq, Structural)]
pub struct Entity {
    id: usize,
}

impl View for Entity {
    type V = nat;

    closed spec fn view(&self) -> nat {
        self.id as nat
    }
}

impl Entity {
    #[verifier::type_invariant]
    spec fn inv(self) -> bool {
        self.id > 0
    }

    /// The entity with id `id`, which is at least 1.
    pub(crate) fn from_id(id: usize) -> (r: Entity)
        requires
            id > 0,
        ensures
            r@ == id,
    {
        Entity { id }
    }

    /// The integer behind this entity.
    pub fn id(&self) -> (r: usize)
        ensures
            r == self@,
            r > 0,
    {
        proof {
            use_type_invariant(self);
        }
        self.id
    }
}

/// Data that can be attached to entities through a `ComponentStore<V>`.
///
/// `V` is the store's value type, a sum of all the component types that one store holds. A
/// component type names the table it is kept in (`kind`), wraps itself into a `V`, and
/// recognises its own values among the `V`s.
pub trait Component<V>: Sized {
    /// The table that values of this type are kept in. An implementation outside verified
    /// code leaves this and the two spec functions below unstated.
    closed spec fn spec_kind() -> usize {
        arbitrary()
    }

    /// The stored form of a component.
    closed spec fn to_value(self) -> V {
        arbitrary()
    }

    /// The component that a stored value holds, if it is one of this type.
    closed spec fn from_value(v: V) -> Option<Self> {
        arbitrary()
    }

    /// The table that values of this type are kept in.
    fn kind() -> (k: usize)
        ensures
            k == Self::spec_kind(),
    ;

    /// Wraps the component into the stored form, from which it can be read back.
    fn into_value(self) -> (v: V)
        ensures
            v == self.to_value(),
            Self::from_value(v) == Some(self),
    ;

    /// The component in a stored value, if it is one of this type.
    fn of_value(v: &V) -> (r: Option<&Self>)
        ensures
            opt_deref(r) == Self::from_value(*v),
    ;

    /// A mutable reference to the component in a stored value, if it is one of this type.
    /// Writing through it writes the stored value.
    fn of_value_mut(v: &mut V) -> (r: Option<&mut Self>)
        ensures
            match r {
                Some(c) => {
                    &&& Self::from_value(*old(v)) == Some(*c)
                    &&& *final(v) == (*final(c)).to_value()
                },
                None => {
                    &&& Self::from_value(*old(v)) is None
                    &&& *final(v) == *old(v)
                },
            },
    ;
}

} // verus!
