use vstd::prelude::*;

use crate::algo::kmeans::{is_nearest, key_less, nearest, INFINITY_KEY};
use crate::model::Centroid;

verus! {

/// The cluster a point is assigned to, and the key of its distance to that
/// cluster's centroid.
pub struct Assignment {
    pub cluster_id: usize,
    pub distance: u64,
}

/// The assignment of a point whose distance keys to `centroids` are `keys`:
/// the id of the first nearest centroid and that distance; when no distance
/// is a number below infinity, the first centroid's id (or 0 when there are
/// no centroids) at infinity.
pub open spec fn assignment_of(centroids: Seq<Centroid>, keys: Seq<u64>) -> (usize, u64) {
    if exists|i: int| is_nearest(keys, i) {
        let i = choose|i: int| is_nearest(keys, i);
        (centroids[i].id, keys[i])
    } else {
        (if centroids.len() > 0 {
            centroids[0].id
        } else {
            0
        }, INFINITY_KEY)
    }
}

/// Assigns every point to its nearest centroid. `key_rows[p][c]` is the key
/// of the distance from point `p` to `centroids[c]`.
pub fn assign_points(centroids: &Vec<Centroid>, key_rows: &Vec<Vec<u64>>) -> (out: Vec<Assignment>)
    requires
        forall|p: int| 0 <= p < key_rows@.len() ==> (#[trigger] key_rows@[p])@.len() == centroids@.len(),
    ensures
        out@.len() == key_rows@.len(),
        forall|p: int|
            0 <= p < key_rows@.len() ==> (#[trigger] out@[p].cluster_id, out@[p].distance) == assignment_of(
                centroids@,
                key_rows@[p]@,
            ),
{
    let mut out: Vec<Assignment> = Vec::new();
    for p in 0..key_rows.len()
        invariant
            forall|q: int| 0 <= q < key_rows@.len() ==> (#[trigger] key_rows@[q])@.len() == centroids@.len(),
            out@.len() == p,
            forall|q: int|
                0 <= q < p ==> (#[trigger] out@[q].cluster_id, out@[q].distance) == assignment_of(
                    centroids@,
                    key_rows@[q]@,
                ),
    {
        let (found, key) = nearest(&key_rows[p]);
        let cluster_id = match found {
            Some(i) => centroids[i].id,
            None => if centroids.len() > 0 {
                centroids[0].id
            } else {
                0
            },
        };
        proof {
            let row = key_rows@[p as int]@;
            if let Some(i) = found {
                let c = choose|x: int| is_nearest(row, x);
                crate::algo::kmeans::lemma_nearest_unique(row, c, i as int);
            } else {
                assert forall|i: int| !is_nearest(row, i) by {
                    if 0 <= i < row.len() {
                        assert(!key_less(row[i], INFINITY_KEY));
                    }
                }
            }
        }
        out.push(Assignment { cluster_id, distance: key });
    }
    out
}

} // verus!
