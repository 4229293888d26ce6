use vstd::prelude::*;

verus! {

/// One cluster centre. Coordinates and the sum of squared errors are held as
/// the IEEE-754 bit patterns of double-precision values; the library copies,
/// counts and compares them but does no arithmetic on them.
pub struct Centroid {
    /// Stable cluster id.
    pub id: usize,
    /// Bit patterns of the coordinates, one per feature column.
    pub coords: Vec<u64>,
    /// Number of points assigned to the cluster, when known.
    pub size: Option<usize>,
    /// Bit pattern of the cluster's sum of squared errors, when known.
    pub sse: Option<u64>,
}

impl Centroid {
    /// An equal copy.
    pub fn duplicate(&self) -> (c: Centroid)
        ensures
            c.id == self.id,
            c.coords@ == self.coords@,
            c.size == self.size,
            c.sse == self.sse,
    {
        Centroid { id: self.id, coords: self.coords.clone(), size: self.size, sse: self.sse }
    }
}

/// A centroid as plain values: id, coordinate bits, size, error bits.
pub open spec fn centroid_view(c: Centroid) -> (usize, Seq<u64>, Option<usize>, Option<u64>) {
    (c.id, c.coords@, c.size, c.sse)
}

/// Every centroid as plain values.
pub open spec fn centroids_view(cs: Seq<Centroid>) -> Seq<(usize, Seq<u64>, Option<usize>, Option<u64>)> {
    cs.map_values(|c: Centroid| centroid_view(c))
}

/// An equal copy of a list of centroids.
pub fn copy_centroids(cs: &Vec<Centroid>) -> (out: Vec<Centroid>)
    ensures
        centroids_view(out@) == centroids_view(cs@),
{
    let mut out: Vec<Centroid> = Vec::new();
    for k in 0..cs.len()
        invariant
            centroids_view(out@) == centroids_view(cs@).take(k as int),
    {
        let ghost before = out@;
        out.push(cs[k].duplicate());
        assert(centroids_view(out@) =~= centroids_view(before).push(centroid_view(cs@[k as int])));
        assert(centroids_view(cs@).take(k + 1) =~= centroids_view(cs@).take(k as int).push(
            centroid_view(cs@[k as int]),
        ));
    }
    assert(centroids_view(cs@).take(cs@.len() as int) =~= centroids_view(cs@));
    out
}

} // verus!
