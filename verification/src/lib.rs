//! Commands that run inside container images, exposed as if they were
//! ordinary programs on the search path.
//!
//! Commands are grouped into crates: a crate names a set of commands, each
//! bound to a container image, and the crates it imports. This library holds
//! what lies between a crate reference and the invocation of the container
//! engine: parsing references ([`manifest`]), the cache of manifests
//! ([`manifest_cache`]), the resolution of imports ([`imports`]), the lookup
//! of a command and the layers merged around it ([`dispatch`]), the argument
//! vector for the engine ([`shimlink`]), and the decisions of the process
//! supervisor ([`process`]). Reading files, asking the network and running
//! processes is left to the caller.

pub mod activate;
pub mod argpaths;
pub mod config;
pub mod digest;
pub mod dispatch;
pub mod imports;
pub mod listing;
pub mod manifest;
pub mod manifest_cache;
pub mod order;
pub mod process;
pub mod shimlink;
pub mod text;
pub mod words;
