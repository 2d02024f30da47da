//! Serialization and deserialization of values that are reached only through a
//! shared interface, where the concrete type is learnt at run time from an
//! identifier carried beside the value.
//!
//! A value travels as a map with exactly one entry: the key is the identifier of
//! the concrete type, the value is that type's own encoding. A registry maps
//! identifiers to decode functions; decoding reads the key, resolves it in the
//! registry, and decodes the value with the function found.
//!
//! This crate holds the rules: identifiers and their text form, registries and
//! their policies on repeated registration, and the protocols for reading and
//! writing one envelope, a sequence of envelopes and a mapping of envelopes.
//! The protocols are written as transition functions: a driver performs the
//! reads and writes on a concrete encoder or decoder and reports each outcome.

pub mod text;
pub mod id;
pub mod order;
pub mod registry;
pub mod ser;
pub mod de;
pub mod permissive;

pub use registry::{FirstMapRegistry, GetError, Lookup, MapRegistry, Registry};
