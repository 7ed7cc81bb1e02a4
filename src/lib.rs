//! Locating filesystem objects by name: the scan accounting, the work
//! partitioning, the match engine and the cache record, each with its
//! contract.
pub mod scan_result;
pub mod walker;
pub mod utils;
pub mod scan;
pub mod names;
pub mod regex_builder;
pub mod search;
pub mod options;
pub mod tool;
pub mod seek;
pub mod cache;

pub use scan_result::ScanResult;
