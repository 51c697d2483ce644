//! Resolution of wildcard key patterns against a paginated object listing.
//!
//! The library holds the decisions: how a pattern splits into a listing
//! prefix and a fixed suffix, which keys each listing page contributes,
//! when pagination goes on, and the final ordering of the keys. Talking to
//! the storage service is left to the caller, which drives a [`Resolver`]
//! with the pages it receives.

pub mod order;
pub mod pattern;
pub mod resolver;

pub use order::{chars_of, key_le_exec, sort_keys};
pub use pattern::{decompose, DecomposedPattern};
pub use resolver::{ListRequest, ListingPage, ResolveError, Resolver, Step, DELIMITER};

