//! A scriptable proxy object model over a shared, mutable node tree.
//!
//! A [`LuaInstance`] is a copyable handle — a bare node id — into a tree
//! store that other handles may mutate at any time. Every operation resolves
//! the id against the live store anew and fails cleanly when the node is
//! gone. The dynamic member protocol (read, write, child lookup, child
//! enumeration, display text, equality) is specified against a mathematical
//! model of the store and verified.

pub mod instance;
pub mod laws;
pub mod model;
pub mod store;

pub use instance::{InstanceError, LuaInstance, ScriptValue};
