//! A model of the host framework's ambient context store.
//!
//! A component tree's rendering framework offers two ambient operations: an
//! ancestor may *inject* a value for its subtree, and a descendant may *read*
//! the nearest injected value of a given type. Because the store is keyed by
//! value type alone, one store per value type suffices as a model: it holds
//! the value supplied by the nearest enclosing provider, if any. The render
//! glue that talks to a real framework fills such a store from the host's
//! lookup and passes it to the consumers of this crate.

use vstd::prelude::*;

verus! {

/// The ambient, type-keyed context store for one value type, scoped to one
/// render subtree: `None` until a provider injects a value.
pub struct AmbientStore<T> {
    provided: Option<T>,
}

impl<T> View for AmbientStore<T> {
    type V = Option<T>;

    closed spec fn view(&self) -> Option<T> {
        self.provided
    }
}

impl<T> AmbientStore<T> {
    /// A store in which no provider has injected a value.
    pub fn empty() -> (r: Self)
        ensures
            r@ is None,
    {
        AmbientStore { provided: None }
    }

    /// Wraps the result of the host framework's lookup: `Some` if an
    /// enclosing provider injected a value, `None` otherwise.
    pub fn from_lookup(found: Option<T>) -> (r: Self)
        ensures
            r@ == found,
    {
        AmbientStore { provided: found }
    }

    /// Injects `value` for the subtree this store belongs to, replacing any
    /// previously injected value.
    pub fn provide(&mut self, value: T)
        ensures
            final(self)@ == Some(value),
    {
        self.provided = Some(value);
    }

    /// The value supplied by the nearest enclosing provider, if any.
    pub fn read(&self) -> (r: &Option<T>)
        ensures
            *r == self@,
    {
        &self.provided
    }
}

} // verus!
