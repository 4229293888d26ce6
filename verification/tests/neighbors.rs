use kmeansn::algo::neighbors::centroid_neighbors;
use kmeansn::model::Centroid;

fn centroid(id: usize, coords: &[f64]) -> Centroid {
    Centroid {
        id,
        coords: coords.iter().map(|v| v.to_bits()).collect(),
        size: None,
        sse: None,
    }
}

fn euclidean(a: &[u64], b: &[u64]) -> f64 {
    let mut sum = 0.0;
    for (x, y) in a.iter().zip(b.iter()) {
        let d = f64::from_bits(*x) - f64::from_bits(*y);
        sum += d * d;
    }
    sum.sqrt()
}

fn distances(centroids: &[Centroid]) -> Vec<Vec<u64>> {
    centroids
        .iter()
        .map(|a| centroids.iter().map(|b| euclidean(&a.coords, &b.coords).to_bits()).collect())
        .collect()
}

#[test]
fn ranks_neighbors_by_distance() {
    let centroids = vec![
        centroid(0, &[0.0, 0.0]),
        centroid(1, &[1.0, 0.0]),
        centroid(2, &[5.0, 0.0]),
    ];
    let rows = centroid_neighbors(&centroids, &distances(&centroids), None);
    assert_eq!(rows.len(), 6); // 3 centroids x 2 neighbors each

    let for_zero: Vec<_> = rows.iter().filter(|r| r.centroid_id == 0).collect();
    assert_eq!(for_zero[0].neighbor_id, 1);
    assert_eq!(for_zero[0].rank, 1);
    assert_eq!(f64::from_bits(for_zero[0].distance), 1.0);
    assert_eq!(for_zero[1].neighbor_id, 2);
    assert_eq!(for_zero[1].rank, 2);
    assert_eq!(f64::from_bits(for_zero[1].distance), 5.0);
}

#[test]
fn respects_neighbor_limit() {
    let centroids = vec![centroid(0, &[0.0]), centroid(1, &[1.0]), centroid(2, &[2.0])];
    let rows = centroid_neighbors(&centroids, &distances(&centroids), Some(1));
    assert_eq!(rows.len(), 3); // one neighbor per centroid
    assert!(rows.iter().all(|r| r.rank == 1));
}

#[test]
fn single_centroid_has_no_neighbors() {
    let centroids = vec![centroid(0, &[1.0, 2.0])];
    assert!(centroid_neighbors(&centroids, &distances(&centroids), None).is_empty());
}

#[test]
fn ties_go_to_the_earlier_centroid() {
    let centroids = vec![centroid(7, &[0.0]), centroid(8, &[1.0]), centroid(9, &[-1.0])];
    let rows = centroid_neighbors(&centroids, &distances(&centroids), None);
    let ids: Vec<(usize, usize, usize)> =
        rows.iter().map(|r| (r.centroid_id, r.neighbor_id, r.rank)).collect();
    assert_eq!(
        ids,
        vec![(7, 8, 1), (7, 9, 2), (8, 7, 1), (8, 9, 2), (9, 7, 1), (9, 8, 2)]
    );
}

#[test]
fn limit_larger_than_neighbors_keeps_all() {
    let centroids = vec![centroid(0, &[0.0]), centroid(1, &[3.0]), centroid(2, &[1.0])];
    let rows = centroid_neighbors(&centroids, &distances(&centroids), Some(10));
    assert_eq!(rows.len(), 6);
    let first: Vec<usize> = rows.iter().take(2).map(|r| r.neighbor_id).collect();
    assert_eq!(first, vec![2, 1]);
}

#[test]
fn zero_limit_gives_no_rows() {
    let centroids = vec![centroid(0, &[0.0]), centroid(1, &[3.0])];
    assert!(centroid_neighbors(&centroids, &distances(&centroids), Some(0)).is_empty());
}

#[test]
fn no_centroids_gives_no_rows() {
    assert!(centroid_neighbors(&Vec::new(), &Vec::new(), None).is_empty());
}
