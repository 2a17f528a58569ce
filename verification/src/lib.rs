//! A declarative view compiler and a factory runtime for dynamic child
//! components.
//!
//! The crate has two halves that share no state.
//!
//! The compiler takes a component as its author wrote it and lowers it:
//! [`visitors`] collect the component's named sections, [`view`] checks the
//! view description and sorts it into a tree, [`streams`] lowers the tree into
//! four correlated streams (construction, initial assignment, connection and
//! update), [`inject`] splices the view code into the initialization routine
//! and puts the update routine together, and [`component`] runs the whole.
//! What is wrong with a component is said by [`diagnostics`].
//!
//! The runtime keeps the children of a container: [`factory`] holds an ordered
//! collection of child components with stable identities, [`reconcile`] brings
//! the native child container to the collection's order, and [`routing`]
//! carries what a child emits to its parent.

pub mod component;
pub mod diagnostics;
pub mod factory;
pub mod inject;
pub mod reconcile;
pub mod routing;
pub mod streams;
pub mod view;
pub mod visitors;
