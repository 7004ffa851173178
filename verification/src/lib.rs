//! A browser over a cached directory hierarchy: the cache with its links,
//! the listing of a place, the changes that keep cache and disk in step, and
//! the state machine that turns keys into both. Everything that touches a
//! terminal or a disk is the caller's: the library says what to do and takes
//! what came of it.

pub mod controller;
pub mod controller_laws;
pub mod error;
pub mod input;
pub mod mutation;
pub mod mutation_laws;
pub mod navigation;
pub mod paths;
pub mod resolver;
pub mod scan;
pub mod snapshot;
mod text;
pub mod tree;
