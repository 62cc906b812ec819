//! Finds `node_modules` directories below a starting directory, keeps the
//! running results of measuring them, and decides what the scan does next.
//!
//! The library holds no file handles, threads or terminals. A caller lists
//! directories, measures them and draws; the library decides which paths are
//! discoveries, keeps the ordered results with their running total, and says
//! when the run is finished.

pub mod entry;
pub mod format;
pub mod input;
pub mod path_laws;
pub mod probe;
pub mod scan;
pub mod scan_laws;
pub mod status;
pub mod store;
pub mod store_laws;
pub mod time_helpers;
pub mod tree;
pub mod walk_laws;
pub mod walker;
