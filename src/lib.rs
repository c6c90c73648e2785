//! Streaming of an infinite, chunked heightfield terrain around one observer.
//!
//! The library holds the integer side of the work: chunk addressing, the
//! chunk store, the spiral search that picks the next chunk to generate, the
//! mesh topology of a chunk, and the activation and eviction of rendered
//! chunks. Heights are carried through as an opaque sample type `H`.

pub mod location;
pub mod store;
pub mod scheduler;
pub mod mesh;
pub mod streaming;
