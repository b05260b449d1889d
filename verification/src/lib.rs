//! A hierarchical access-control evaluation engine.
//!
//! A caller builds a tree of named resources — prefixes holding further
//! prefixes or leaf objects, each guarded by an ordered access-control
//! list — and asks whether a principal may reach a path, given as its
//! list of segment names, with a requested capability mask. The walk
//! narrows the mask at every prefix, honours a sudo escalation sentinel,
//! and judges the terminal object, so an ancestor can only ever restrict
//! what a descendant grants.

pub mod descriptor;
pub mod mask;
pub mod resolve;
pub mod tree;

pub use descriptor::{AccessToken, CheckResult, Effect, Entry, RuleSubject, SecurityDescriptor};
pub use resolve::access;
pub use tree::{Item, Object, Prefix, SPECIAL_SEGMENT_SUDO};
