//! Static analysis of tagged functions: discovery of incoming call edges
//! for a symbol through a code-intelligence server backed by a durable
//! link cache, and classification of how many times each discovered edge
//! may fire per entry into its caller.
//!
//! - [`model`] — canonical symbol references and call edges.
//! - [`tree`] — the already-parsed source-tree input.
//! - [`tags`] — the marker-annotation scan that seeds resolution.
//! - [`codec`] — the serialized cache representation and the canonical
//!   cache key, with a proved round trip.
//! - [`store`] — the durable partition the cache lives in.
//! - [`resolver`] — the cache-first, retry-bounded resolution protocol.
//! - [`style`] — the multiplicity lattice and its join.
//! - [`classify`] — the context-stack walk that classifies one edge.

pub mod classify;
pub mod codec;
pub mod model;
pub mod resolver;
pub mod store;
pub mod style;
pub mod tags;
pub mod tree;
