use kmeansn::algo::kmeans::FitResult;
use kmeansn::commands::{assign_dataset, require_feature_columns, CommandError};
use kmeansn::io::centroids_json::{CentroidsError, CentroidsFile};
use kmeansn::model::{Centroid, Dataset};

fn centroid(id: usize, coords: &[f64]) -> Centroid {
    Centroid { id, coords: coords.iter().map(|v| v.to_bits()).collect(), size: Some(3), sse: Some(0.5f64.to_bits()) }
}

fn file(dims: usize, columns: &[&str], centroids: Vec<Centroid>) -> CentroidsFile {
    CentroidsFile {
        version: "kmeansn.centroids.v1".to_string(),
        dims,
        columns: columns.iter().map(|s| s.to_string()).collect(),
        distance: "euclidean".to_string(),
        centroids,
        data_count: 6,
        converged: true,
        iterations: 3,
    }
}

#[test]
fn from_fit_describes_the_fit() {
    let dataset = Dataset { columns: vec!["x".to_string(), "y".to_string()], has_id: true };
    let fit = FitResult { centroids: vec![centroid(0, &[1.0, 2.0]), centroid(1, &[3.0, 4.0])], data_count: 6, converged: true, iterations: 4 };
    let f = CentroidsFile::from_fit(&dataset, &fit);
    assert_eq!(f.version, "kmeansn.centroids.v1");
    assert_eq!(f.distance, "euclidean");
    assert_eq!(f.dims, 2);
    assert_eq!(f.columns, dataset.columns);
    assert_eq!(f.centroids.len(), 2);
    assert_eq!(f.centroids[1].coords, fit.centroids[1].coords);
    assert_eq!(f.data_count, 6);
    assert!(f.converged);
    assert_eq!(f.iterations, 4);
    assert_eq!(f.validate(), Ok(()));
}

#[test]
fn validation_errors() {
    assert_eq!(file(0, &[], vec![]).validate(), Err(CentroidsError::NoFeatureColumns));
    assert_eq!(file(0, &["x"], vec![]).validate(), Err(CentroidsError::NoFeatureColumns));
    assert_eq!(file(2, &["x"], vec![]).validate(), Err(CentroidsError::DimsMismatch));
    let bad = file(2, &["x", "y"], vec![centroid(0, &[1.0, 2.0]), centroid(1, &[1.0])]);
    assert_eq!(bad.validate(), Err(CentroidsError::CoordsMismatch));
    assert_eq!(bad.validate().unwrap_err().message(), "centroid coords length does not match dims");
    assert_eq!(file(1, &["x"], vec![]).validate(), Ok(()));
}

#[test]
fn command_preconditions() {
    assert_eq!(require_feature_columns(&Dataset::new()), Err(CommandError::NoFeatureColumns));
    let empty = file(1, &["x"], vec![]);
    assert_eq!(assign_dataset(&empty).err(), Some(CommandError::NoCentroids));
    assert_eq!(CommandError::NoCentroids.message(), "centroids file contains no centroids");
    let f = file(1, &["x"], vec![centroid(0, &[1.0])]);
    let d = assign_dataset(&f).ok().unwrap();
    assert_eq!(d.columns, vec!["x".to_string()]);
    assert!(!d.has_id);
    assert_eq!(require_feature_columns(&d), Ok(()));
}
