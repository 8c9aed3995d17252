//! An append-only update-log store for collaborative documents, together with
//! the document sessions that produce update fragments and the workspace
//! registry that allocates workspace ids.
//!
//! A document's state is carried by an ordered log of binary update fragments.
//! The store persists fragments verbatim, keyed by document id, and hands them
//! back in storage order; a session encodes metadata transactions as fragments
//! and reconstructs document state by replaying a fragment sequence in order.

pub mod blob;
pub mod codec;
pub mod commands;
pub mod document;
pub mod params;
pub mod registry;
pub mod store;
