//! Core logic of a game add-on manager: the installed-mod registry with its
//! dependency graph and cascade removal, archive normalization, the local
//! cache store, version resolution, on-disk detection, and backup selection.
//!
//! Everything here is a pure model of the manager's decisions: callers
//! perform the filesystem work, network fetches and persistence that the
//! decisions imply, and feed the outcomes back in as plain values.
pub mod archive;
pub mod backup;
pub mod cache;
pub mod detection;
pub mod errors;
pub mod registry;
pub mod resolver;
pub mod text;
pub mod thumbnail;

pub use errors::AppError;
pub use errors::map_error;
