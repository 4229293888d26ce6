//! Verified core of a k-means clustering tool for CSV and NDJSON point streams.
//!
//! Everything that decides (which columns are features, which rows are
//! valid, which centroid a point belongs to, how neighbours are ranked,
//! which format a file has) lives here with its contract. Arithmetic on
//! floating-point values does not: distances enter this crate as the
//! IEEE-754 bit patterns of non-negative values, which order exactly as the
//! values themselves do.

pub mod model;
pub mod io;
pub mod algo;
pub mod output;
pub mod commands;
