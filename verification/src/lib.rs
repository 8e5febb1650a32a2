//! Locating installed language runtimes: version parsing and comparison,
//! candidate matching, de-duplication and ranking.

pub mod java;
pub mod properties;
pub mod python;
pub mod ranking;
pub mod text;
pub mod version;
