pub mod centroid;
pub mod dataset;
pub mod point;

pub use centroid::Centroid;
pub use dataset::Dataset;
pub use point::RawPoint;
