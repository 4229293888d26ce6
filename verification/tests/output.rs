use kmeansn::io::csv_write::{write_assigned_points, write_neighbors, AssignedRow, NeighborRow};
use kmeansn::io::reader::{input_source, output_target, InputSource, OutputTarget};
use kmeansn::model::{Centroid, Dataset};
use kmeansn::output::assign::assign_points;
use std::path::PathBuf;

#[test]
fn assigned_csv_keeps_ids_and_appends_cluster_fields() {
    let dataset = Dataset { columns: vec!["x".to_string(), "y".to_string()], has_id: true };
    let rows = vec![
        AssignedRow { id: Some("p1".to_string()), values: vec!["1".to_string(), "2".to_string()], cluster_id: "0".to_string(), distance: "0.5".to_string() },
        AssignedRow { id: None, values: vec!["3,5".to_string(), "4".to_string()], cluster_id: "1".to_string(), distance: "0".to_string() },
    ];
    let bytes = write_assigned_points(&dataset, &rows).unwrap();
    assert_eq!(
        String::from_utf8(bytes).unwrap(),
        "id,x,y,_cluster_id,_cluster_distance\np1,1,2,0,0.5\n,\"3,5\",4,1,0\n"
    );
}

#[test]
fn assigned_csv_without_ids() {
    let dataset = Dataset { columns: vec!["x".to_string()], has_id: false };
    let rows = vec![AssignedRow { id: Some("ignored".to_string()), values: vec!["1".to_string()], cluster_id: "2".to_string(), distance: "1.5".to_string() }];
    let bytes = write_assigned_points(&dataset, &rows).unwrap();
    assert_eq!(String::from_utf8(bytes).unwrap(), "x,_cluster_id,_cluster_distance\n1,2,1.5\n");
}

#[test]
fn neighbors_csv_table() {
    let rows = vec![NeighborRow { centroid_id: "0".to_string(), neighbor_id: "2".to_string(), distance: "0.431".to_string(), rank: "1".to_string() }];
    let bytes = write_neighbors(&rows).unwrap();
    assert_eq!(String::from_utf8(bytes).unwrap(), "centroid_id,neighbor_id,distance,rank\n0,2,0.431,1\n");
}

#[test]
fn points_go_to_their_nearest_centroid() {
    let centroids = vec![
        Centroid { id: 5, coords: vec![], size: None, sse: None },
        Centroid { id: 9, coords: vec![], size: None, sse: None },
    ];
    let rows = vec![vec![2.0f64.to_bits(), 1.0f64.to_bits()], vec![f64::NAN.to_bits(), f64::INFINITY.to_bits()]];
    let out = assign_points(&centroids, &rows);
    assert_eq!((out[0].cluster_id, out[0].distance), (9, 1.0f64.to_bits()));
    assert_eq!((out[1].cluster_id, out[1].distance), (5, f64::INFINITY.to_bits()));
    assert!(assign_points(&Vec::new(), &vec![vec![]]).iter().all(|a| a.cluster_id == 0));
}

#[test]
fn sources_and_targets() {
    assert!(matches!(input_source(None), InputSource::Stdin));
    assert!(matches!(input_source(Some(PathBuf::from("a.csv"))), InputSource::File(p) if p == PathBuf::from("a.csv")));
    assert!(matches!(output_target(None), OutputTarget::Stdout));
    assert!(matches!(output_target(Some(PathBuf::from("o"))), OutputTarget::File(_)));
}
