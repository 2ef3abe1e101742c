//! Switch between named package-registry endpoints by rewriting the single
//! `registry` key in an INI-style user configuration file.
//!
//! The crate holds the logic of the tool: the registry table loaded from a
//! JSON document, the key/value configuration text that stores the active
//! registry, and the rendering of each command's output. File and terminal
//! handling live outside.

pub mod bytes;
pub mod commands;
pub mod json;
pub mod listing;
pub mod registry;
pub mod store;

use vstd::prelude::*;

verus! {

/// Why an invocation fails fatally: the registry document or the
/// configuration text cannot be used as spec'd.
#[derive(Clone, Copy, Debug, PartialEq, Eq, Structural)]
pub enum Error {
    /// The registry document is not valid JSON.
    InvalidJson,
    /// The registry document is valid JSON but not an object.
    NotAnObject,
    /// An entry of the registry document is not an object holding
    /// string fields `home` and `registry`.
    BadEntry,
    /// The configuration text holds no `registry` key in its default section.
    MissingKey,
}

} // verus!
