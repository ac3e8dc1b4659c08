//! A keyed registry of long-lived components.
//!
//! Each component is built by a factory from construction arguments that the
//! registry keeps beside it, so that any entry can later be rebuilt in place
//! or replaced. Bulk and targeted operations report one outcome per key and
//! leave an entry untouched whenever rebuilding it fails.
//!
//! The contracts take keys to obey the hash-map key model of `vstd`
//! (`obeys_key_model`: hashing and equality agree with identity), and
//! operations that clone stored keys take a clone to equal its original
//! (`model::clones_equal`). The factory must accept every argument value
//! (`model::callable_on_all`); it is otherwise opaque, so a component that
//! it built is described as one that it may return (`f.ensures`).
//!
//! The operations that take outcomes computed elsewhere (`apply_reinit`,
//! `apply_update`, `from_entries` and their fallible forms) let a caller run
//! the factory calls of one operation concurrently and then apply their
//! outcomes in input order.
use std::collections::HashMap;
use vstd::prelude::*;

pub mod laws;
mod map_ops;
pub mod model;
mod staged;
mod sync_fallible;
mod sync_infallible;

verus! {

/// A key paired with the outcome of an operation on it.
#[derive(Debug)]
pub struct Keyed<Key, Value> {
    pub key: Key,
    pub value: Value,
}

impl<Key, Value> Keyed<Key, Value> {
    pub fn new(key: Key, value: Value) -> (r: Self)
        ensures
            r == (Keyed { key, value }),
    {
        Keyed { key, value }
    }
}

/// A component together with the arguments it was built from.
#[derive(Debug)]
pub struct WithArgs<Args, Comp> {
    pub component: Comp,
    pub args: Args,
}

impl<Args, Comp> WithArgs<Args, Comp> {
    pub fn new(component: Comp, args: Args) -> (r: Self)
        ensures
            r == (WithArgs { component, args }),
    {
        WithArgs { component, args }
    }
}

/// Maps each key to a component and the arguments it was built from, and
/// keeps the factory that builds components from arguments.
#[derive(Debug)]
pub struct ComponentManager<Key, Args, Comp, FnInit> {
    map: HashMap<Key, WithArgs<Args, Comp>>,
    init: FnInit,
}

impl<Key, Args, Comp, FnInit> View for ComponentManager<Key, Args, Comp, FnInit> {
    type V = Map<Key, WithArgs<Args, Comp>>;

    closed spec fn view(&self) -> Self::V {
        self.map@
    }
}

impl<Key, Args, Comp, FnInit> ComponentManager<Key, Args, Comp, FnInit> {
    /// The factory that the registry was built with.
    pub closed spec fn factory(&self) -> FnInit {
        self.init
    }

    pub fn new(map: HashMap<Key, WithArgs<Args, Comp>>, init: FnInit) -> (r: Self)
        ensures
            r@ == map@,
            r.factory() == init,
    {
        ComponentManager { map, init }
    }

    /// Shared access to every entry.
    pub fn components(&self) -> (r: &HashMap<Key, WithArgs<Args, Comp>>)
        ensures
            r@ == self@,
    {
        &self.map
    }

    /// Exclusive access to every entry; the factory stays as it is.
    pub fn components_mut(&mut self) -> (r: &mut HashMap<Key, WithArgs<Args, Comp>>)
        ensures
            r@ == old(self)@,
            final(self)@ == final(r)@,
            final(self).factory() == old(self).factory(),
    {
        &mut self.map
    }

    /// The factory that the registry was built with.
    pub fn fn_init(&self) -> (r: &FnInit)
        ensures
            *r == self.factory(),
    {
        &self.init
    }
}

} // verus!
