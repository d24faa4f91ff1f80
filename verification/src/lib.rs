//! A local mirror of a sharded package index.
//!
//! - `fuzzy`: names in which `-` and `_` are interchangeable.
//! - `path`: strings of bytes and paths made of them.
//! - `shard`: where the file of a package lies in the index.
//! - `list`: the search for the files of the packages whose names begin with
//!   a query, as a machine that asks for directories one at a time.
//! - `reach`: what such a search reaches, and that it ends.
//! - `snapshot`: an index held in memory.
//! - `scan`: the search against a scan of every file.
//! - `walk`: the filter of a walk over the whole index.
//! - `version`: semantic versions, their order and their text.
//! - `registry`: the records of a package, and the version that stands for
//!   it.
//! - `index`: the places of the local copy, and the decisions that bring it
//!   and keep it fresh.
//! - `detach`: the two sides of a fork.

pub mod detach;
pub mod fuzzy;
pub mod index;
pub mod list;
pub mod path;
pub mod reach;
pub mod registry;
pub mod scan;
pub mod shard;
pub mod snapshot;
pub mod version;
pub mod walk;
