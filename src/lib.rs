//! Verified core of a namespaced vector-similarity service: the stored form
//! of vectors, the decisions of the write, read and rebuild protocol, and the
//! per-namespace registry of approximate-nearest-neighbour indices.
pub mod codec;
pub mod protocol;
pub mod registry;
