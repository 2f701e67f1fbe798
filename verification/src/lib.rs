//! Context propagation for component-tree user interfaces.
//!
//! A *provider* component makes a value available to every component rendered
//! beneath it, and a *consumer* reads the nearest provided value — or falls
//! back to a default registered when the context was created — without the
//! value being threaded through every intermediate component's properties.
//!
//! On top of that single primitive, a *scoped context registry* lets a
//! reusable component library register several independent contexts under one
//! named scope, and a *scope hook factory* turns the registered contexts of
//! one or more such scopes into a single mapping that a composite component
//! can consume.
//!
//! The host framework's ambient, type-keyed context store is modelled by
//! [`ambient::AmbientStore`]; the glue that connects these primitives to a
//! concrete rendering framework lives outside this crate and only hands plain
//! values in and out.

pub mod ambient;
pub mod context;
pub mod memo;
pub mod scope;
pub mod values;
