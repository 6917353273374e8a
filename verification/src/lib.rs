//! A structural-to-nominal type compiler: turns a directory's worth of
//! structurally-typed schema definitions into uniquely named nominal type
//! definitions, deduplicating aggregates that share a shape and threading a
//! single generic parameter through matched templates.
//!
//! - `type_node` is the raw tree the schema loader hands in;
//! - `meta` extracts name-override metadata into the clean model of
//!   `aggregate`;
//! - `matcher` decides structural equivalence modulo one generic parameter;
//! - `collection` is the registry that names, deduplicates and resolves
//!   types, with every mutation specified as a transition function;
//! - `laws` proves the registry's guarantees over those transitions;
//! - `options` is the configuration surface, `outside` the trusted calls
//!   into outside crates, and `util` small helpers.

pub mod aggregate;
pub mod collection;
pub mod laws;
pub mod matcher;
pub mod meta;
pub mod options;
pub mod outside;
pub mod type_node;
pub mod util;
