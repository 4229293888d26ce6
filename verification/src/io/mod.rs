pub mod centroids_json;
pub mod columns;
pub mod csv;
pub mod csv_write;
pub mod error;
pub mod format;
pub mod ndjson;
pub mod number;
pub mod reader;
pub mod text;
