//! Package acquisition: resolving an artifact and its direct dependencies
//! against a catalog, the progress of concurrent transfers, archive format
//! dispatch, the phases of a run and the registry of installed packages.
pub mod archive;
pub mod catalog;
pub mod orchestrator;
pub mod progress;
pub mod registry;
pub mod search;
