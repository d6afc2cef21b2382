//! A profile-attribute store.
//!
//! A profile maps a numeric identifier to a flat set of string key/value
//! attributes (its *bucket*), plus per-dependent-service attribute overrides
//! (*service overlays*). Callers query attributes globally, scoped to one
//! dependent service, or as a merged overlay view in which service-scoped
//! values take precedence over global ones.
//!
//! The verified core consists of the key codec (reversible escaping of
//! attribute keys so they are safe as structural field names in a nested
//! document), the profile data model, and the mutation/query/overlay
//! resolution logic. The persistent document store and the service-existence
//! directory are external collaborators: the directory's answer is handed to
//! the gated operations as a value, and the instructions for the document
//! store are computed here as plain values.

pub mod backend;
pub mod codec;
pub mod config;
pub mod directory;
pub mod errors;
pub mod laws;
pub mod router;
pub mod schema;
pub mod store;
pub mod strmap;

pub use codec::decode;
pub use codec::encode;
