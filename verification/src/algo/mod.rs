pub mod kmeans;
pub mod neighbors;
