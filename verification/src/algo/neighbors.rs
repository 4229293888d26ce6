use vstd::prelude::*;

use crate::algo::kmeans::is_number_key;
use crate::model::Centroid;

verus! {

/// One row of the centroid-neighbour table: `neighbor_id` is the `rank`-th
/// nearest other centroid of `centroid_id`, at the distance whose bit pattern
/// is `distance`.
pub struct Neighbor {
    pub centroid_id: usize,
    pub neighbor_id: usize,
    pub distance: u64,
    pub rank: usize,
}

/// In the distance row `d`, index `a` comes before index `b`: it is nearer, or
/// equally near and earlier (the order of a stable sort by distance).
pub open spec fn precedes(d: Seq<u64>, a: int, b: int) -> bool {
    d[a] < d[b] || (d[a] == d[b] && a < b)
}

/// `js` lists, nearest first, the `t` nearest of the `n` centroids to
/// centroid `i` (never `i` itself), ties going to the earlier centroid.
pub open spec fn is_nearest_order(d: Seq<u64>, n: int, i: int, t: int, js: Seq<int>) -> bool {
    &&& js.len() == t
    &&& forall|r: int| 0 <= r < t ==> 0 <= #[trigger] js[r] < n && js[r] != i
    &&& forall|r: int, s: int| 0 <= r < s < t ==> precedes(d, #[trigger] js[r], #[trigger] js[s])
    &&& forall|j: int, r: int|
        0 <= j < n && j != i && !js.contains(j) && 0 <= r < t ==> #[trigger] precedes(d, js[r], j)
}

/// How many neighbours each of `n` centroids gets: all `n - 1` others, or
/// `limit` of them when that is fewer.
pub open spec fn neighbors_per_centroid(n: int, limit: Option<usize>) -> int {
    if n == 0 {
        0
    } else {
        match limit {
            Some(l) => if l < n - 1 { l as int } else { n - 1 },
            None => n - 1,
        }
    }
}

/// The rows of centroid `i`, whose neighbours in order are `js`.
pub open spec fn ranked_block(
    centroids: Seq<Centroid>,
    d: Seq<u64>,
    i: int,
    js: Seq<int>,
) -> Seq<(usize, usize, u64, usize)> {
    Seq::new(
        js.len(),
        |r: int| (centroids[i].id, centroids[js[r]].id, d[js[r]], (r + 1) as usize),
    )
}

/// The plain fields of a row, in declaration order.
pub open spec fn row_fields(row: Neighbor) -> (usize, usize, u64, usize) {
    (row.centroid_id, row.neighbor_id, row.distance, row.rank)
}

/// `table` is the neighbour table of `centroids` with the given pairwise
/// `distances` and `limit`, when `order[i]` lists the neighbours of centroid
/// `i`, nearest first.
pub open spec fn is_neighbor_table(
    centroids: Seq<Centroid>,
    distances: Seq<Vec<u64>>,
    limit: Option<usize>,
    order: Seq<Seq<int>>,
    table: Seq<(usize, usize, u64, usize)>,
) -> bool {
    let n = centroids.len() as int;
    let t = neighbors_per_centroid(n, limit);
    &&& order.len() == n
    &&& forall|i: int|
        0 <= i < n ==> is_nearest_order(distances[i]@, n, i, t, #[trigger] order[i])
    &&& table == Seq::new(
        centroids.len(),
        |i: int| ranked_block(centroids, distances[i]@, i, order[i]),
    ).flatten_alt()
}

/// The plain fields of every row, in order.
pub open spec fn table_fields(rows: Seq<Neighbor>) -> Seq<(usize, usize, u64, usize)> {
    rows.map_values(|row: Neighbor| row_fields(row))
}

/// Two orders of the nearest neighbours of one centroid agree on their first
/// `r` entries.
proof fn lemma_orders_agree_upto(d: Seq<u64>, n: int, i: int, t: int, js1: Seq<int>, js2: Seq<int>, r: int)
    requires
        is_nearest_order(d, n, i, t, js1),
        is_nearest_order(d, n, i, t, js2),
        0 <= r <= t,
    ensures
        forall|q: int| 0 <= q < r ==> js1[q] == js2[q],
    decreases r,
{
    if r > 0 {
        lemma_orders_agree_upto(d, n, i, t, js1, js2, r - 1);
        let a = js1[r - 1];
        let b = js2[r - 1];
        if a != b {
            // b comes after a in js1 (or is missing from it), and a after b in js2.
            if js1.contains(b) {
                let p = choose|p: int| 0 <= p < js1.len() && js1[p] == b;
                if p < r - 1 {
                    assert(js2[p] == b);
                    assert(precedes(d, js2[p], js2[r - 1]));
                } else {
                    assert(precedes(d, js1[r - 1], js1[p]));
                }
            } else {
                assert(precedes(d, js1[r - 1], b));
            }
            if js2.contains(a) {
                let p = choose|p: int| 0 <= p < js2.len() && js2[p] == a;
                if p < r - 1 {
                    assert(js1[p] == a);
                    assert(precedes(d, js1[p], js1[r - 1]));
                } else {
                    assert(precedes(d, js2[r - 1], js2[p]));
                }
            } else {
                assert(precedes(d, js2[r - 1], a));
            }
        }
    }
}

/// The nearest-neighbour order of a centroid is unique: any two lists that
/// meet `is_nearest_order` for the same distances and length are equal. So
/// `centroid_neighbors` has exactly one possible result.
pub proof fn lemma_nearest_order_unique(d: Seq<u64>, n: int, i: int, t: int, js1: Seq<int>, js2: Seq<int>)
    requires
        is_nearest_order(d, n, i, t, js1),
        is_nearest_order(d, n, i, t, js2),
    ensures
        js1 == js2,
{
    lemma_orders_agree_upto(d, n, i, t, js1, js2, t);
    assert(js1 =~= js2);
}

/// The nearest-neighbour order ranks by distance: along the list the
/// distance never decreases, equal distances keep the lower index first, and
/// every listed neighbour is at most as far as every centroid left out.
pub proof fn lemma_nearest_order_by_distance(d: Seq<u64>, n: int, i: int, t: int, js: Seq<int>)
    requires
        is_nearest_order(d, n, i, t, js),
    ensures
        forall|r: int, s: int| 0 <= r < s < t ==> d[#[trigger] js[r]] <= d[#[trigger] js[s]],
        forall|r: int, s: int|
            0 <= r < s < t && d[#[trigger] js[r]] == d[#[trigger] js[s]] ==> js[r] < js[s],
        forall|j: int, r: int|
            0 <= j < n && j != i && !js.contains(j) && 0 <= r < t ==> d[#[trigger] js[r]] <= #[trigger] d[j]
                && (d[js[r]] == d[j] ==> js[r] < j),
{
    assert forall|j: int, r: int|
        0 <= j < n && j != i && !js.contains(j) && 0 <= r < t implies d[#[trigger] js[r]] <= #[trigger] d[j]
            && (d[js[r]] == d[j] ==> js[r] < j) by {
        assert(precedes(d, js[r], j));
    }
}

/// Row `r` of block `i` of a table made of blocks of `t` rows each.
pub open spec fn block_row<A>(table: Seq<A>, t: int, i: int, r: int) -> A {
    table[i * t + r]
}

/// Flattening `m` blocks of `t` entries each puts entry `r` of block `k` at
/// position `k * t + r`.
proof fn lemma_flatten_blocks<A>(blocks: Seq<Seq<A>>, t: int)
    requires
        t >= 0,
        forall|k: int| 0 <= k < blocks.len() ==> (#[trigger] blocks[k]).len() == t,
    ensures
        blocks.flatten_alt().len() == blocks.len() * t,
        forall|k: int, r: int|
            0 <= k < blocks.len() && 0 <= r < t ==> block_row(blocks.flatten_alt(), t, k, r)
                == #[trigger] blocks[k][r],
    decreases blocks.len(),
{
    if blocks.len() > 0 {
        let m = blocks.len() as int;
        let front = blocks.drop_last();
        lemma_flatten_blocks(front, t);
        assert(blocks.flatten_alt() == front.flatten_alt() + blocks.last());
        assert(m * t == (m - 1) * t + t) by (nonlinear_arith);
        assert forall|k: int, r: int| 0 <= k < m && 0 <= r < t implies block_row(
            blocks.flatten_alt(),
            t,
            k,
            r,
        ) == #[trigger] blocks[k][r] by {
            if k < m - 1 {
                assert(k * t + r < (m - 1) * t) by (nonlinear_arith)
                    requires k < m - 1, 0 <= r < t, 0 <= k;
                assert(front[k] == blocks[k]);
                assert(block_row(front.flatten_alt(), t, k, r) == front[k][r]);
            } else {
                assert(k * t == (m - 1) * t);
            }
        }
    }
}

/// What a neighbour table says, row by row: row `r` of block `i` (position
/// `i * t + r`) belongs to centroid `i` and has rank `r + 1`; within a block
/// the distance never decreases with the rank; and no centroid left out of a
/// block is nearer than any centroid in it.
pub proof fn lemma_neighbor_table_ranked(
    centroids: Seq<Centroid>,
    distances: Seq<Vec<u64>>,
    limit: Option<usize>,
    order: Seq<Seq<int>>,
    table: Seq<(usize, usize, u64, usize)>,
)
    requires
        distances.len() == centroids.len(),
        is_neighbor_table(centroids, distances, limit, order, table),
    ensures
        table.len() == centroids.len() * neighbors_per_centroid(centroids.len() as int, limit),
        forall|i: int, r: int|
            0 <= i < centroids.len() && 0 <= r < neighbors_per_centroid(centroids.len() as int, limit)
                ==> {
                let row = #[trigger] block_row(table, neighbors_per_centroid(centroids.len() as int, limit), i, r);
                &&& row.0 == centroids[i].id
                &&& row.1 == centroids[order[i][r]].id
                &&& row.2 == distances[i]@[order[i][r]]
                &&& row.3 == (r + 1) as usize
            },
        forall|i: int, r: int, s: int|
            0 <= i < centroids.len() && 0 <= r < s < neighbors_per_centroid(centroids.len() as int, limit)
                ==> (#[trigger] block_row(table, neighbors_per_centroid(centroids.len() as int, limit), i, r)).2
                <= (#[trigger] block_row(table, neighbors_per_centroid(centroids.len() as int, limit), i, s)).2,
        forall|i: int, r: int, j: int|
            0 <= i < centroids.len() && 0 <= r < neighbors_per_centroid(centroids.len() as int, limit)
                && 0 <= j < centroids.len() && j != i && !order[i].contains(j)
                ==> (#[trigger] block_row(table, neighbors_per_centroid(centroids.len() as int, limit), i, r)).2
                <= #[trigger] distances[i]@[j],
{
    let n = centroids.len() as int;
    let t = neighbors_per_centroid(n, limit);
    let blocks = Seq::new(centroids.len(), |i: int| ranked_block(centroids, distances[i]@, i, order[i]));
    assert(t >= 0);
    assert forall|k: int| 0 <= k < blocks.len() implies (#[trigger] blocks[k]).len() == t by {
        assert(is_nearest_order(distances[k]@, n, k, t, order[k]));
    }
    lemma_flatten_blocks(blocks, t);
    assert forall|i: int, r: int, s: int| 0 <= i < n && 0 <= r < s < t implies (#[trigger] block_row(
        table,
        t,
        i,
        r,
    )).2 <= (#[trigger] block_row(table, t, i, s)).2 by {
        assert(is_nearest_order(distances[i]@, n, i, t, order[i]));
        lemma_nearest_order_by_distance(distances[i]@, n, i, t, order[i]);
        assert(blocks[i][r] == block_row(table, t, i, r));
        assert(blocks[i][s] == block_row(table, t, i, s));
    }
    assert forall|i: int, r: int, j: int|
        0 <= i < n && 0 <= r < t && 0 <= j < n && j != i && !order[i].contains(j) implies (
        #[trigger] block_row(table, t, i, r)).2 <= #[trigger] distances[i]@[j] by {
        assert(is_nearest_order(distances[i]@, n, i, t, order[i]));
        lemma_nearest_order_by_distance(distances[i]@, n, i, t, order[i]);
        assert(blocks[i][r] == block_row(table, t, i, r));
    }
    assert forall|i: int, r: int| 0 <= i < n && 0 <= r < t implies {
        let row = #[trigger] block_row(table, t, i, r);
        &&& row.0 == centroids[i].id
        &&& row.1 == centroids[order[i][r]].id
        &&& row.2 == distances[i]@[order[i][r]]
        &&& row.3 == (r + 1) as usize
    } by {
        assert(is_nearest_order(distances[i]@, n, i, t, order[i]));
        assert(blocks[i][r] == block_row(table, t, i, r));
    }
}

/// Indices `0..n` except `i`, sorted by `precedes` on the distance row `d`.
fn sorted_neighbors(d: &Vec<u64>, i: usize) -> (out: Vec<usize>)
    requires
        i < d@.len(),
    ensures
        out@.len() == d@.len() - 1,
        forall|r: int| 0 <= r < out@.len() ==> #[trigger] out@[r] < d@.len() && out@[r] != i,
        forall|r: int, s: int|
            0 <= r < s < out@.len() ==> precedes(d@, #[trigger] out@[r] as int, #[trigger] out@[s] as int),
        forall|j: usize| j < d@.len() && j != i ==> #[trigger] out@.contains(j),
{
    let n = d.len();
    let mut out: Vec<usize> = Vec::new();
    for j in 0..n
        invariant
            n == d@.len(),
            i < n,
            out@.len() == if i < j { j - 1 } else { j as int },
            forall|r: int| 0 <= r < out@.len() ==> #[trigger] out@[r] < j && out@[r] != i,
            forall|r: int, s: int|
                0 <= r < s < out@.len() ==> precedes(d@, #[trigger] out@[r] as int, #[trigger] out@[s] as int),
            forall|x: usize| x < j && x != i ==> #[trigger] out@.contains(x),
    {
        if j != i {
            let mut p: usize = 0;
            while p < out.len() && !(d[j] < d[out[p]] || (d[j] == d[out[p]] && j < out[p]))
                invariant
                    n == d@.len(),
                    j < n,
                    p <= out@.len(),
                    forall|r: int| 0 <= r < out@.len() ==> #[trigger] out@[r] < j && out@[r] != i,
                    forall|q: int| 0 <= q < p ==> precedes(d@, #[trigger] out@[q] as int, j as int),
                decreases out@.len() - p,
            {
                p = p + 1;
            }
            let ghost old_out = out@;
            out.insert(p, j);
            assert(out@ == old_out.insert(p as int, j));
            assert forall|r: int, s: int| 0 <= r < s < out@.len() implies precedes(
                d@,
                #[trigger] out@[r] as int,
                #[trigger] out@[s] as int,
            ) by {
                if r < p && s < p {
                    assert(out@[r] == old_out[r] && out@[s] == old_out[s]);
                } else if r < p && s == p {
                    assert(out@[r] == old_out[r]);
                } else if r < p {
                    assert(out@[r] == old_out[r] && out@[s] == old_out[s - 1]);
                    assert(precedes(d@, old_out[r] as int, j as int));
                    assert(precedes(d@, j as int, old_out[p as int] as int));
                    if s - 1 > p {
                        assert(precedes(d@, old_out[p as int] as int, old_out[s - 1] as int));
                    }
                } else if r == p {
                    assert(out@[s] == old_out[s - 1]);
                    assert(precedes(d@, j as int, old_out[p as int] as int));
                    if s - 1 > p {
                        assert(precedes(d@, old_out[p as int] as int, old_out[s - 1] as int));
                    }
                } else {
                    assert(out@[r] == old_out[r - 1] && out@[s] == old_out[s - 1]);
                }
            }
            assert forall|x: usize| x < j + 1 && x != i implies #[trigger] out@.contains(x) by {
                if x == j {
                    assert(out@[p as int] == x);
                } else {
                    assert(old_out.contains(x));
                    let r0 = choose|r: int| 0 <= r < old_out.len() && old_out[r] == x;
                    if r0 < p {
                        assert(out@[r0] == x);
                    } else {
                        assert(out@[r0 + 1] == x);
                    }
                }
            }
        }
    }
    out
}

/// The whole neighbour table: for each centroid in turn, its
/// `neighbors_per_centroid` nearest other centroids, nearest first, ranked
/// from 1. `distances[i][j]` is the bit pattern of the (non-negative)
/// distance between centroids `i` and `j`; bit patterns of non-negative
/// values order as the values do, so the ranking is the one a stable sort by
/// distance gives. No distance may be a NaN: a comparison that treats a NaN
/// as equal to everything is no total order, and no sort gives it one
/// meaning.
pub fn centroid_neighbors(
    centroids: &Vec<Centroid>,
    distances: &Vec<Vec<u64>>,
    limit: Option<usize>,
) -> (rows: Vec<Neighbor>)
    requires
        distances@.len() == centroids@.len(),
        forall|i: int| 0 <= i < distances@.len() ==> (#[trigger] distances@[i])@.len() == centroids@.len(),
        forall|i: int, j: int|
            0 <= i < distances@.len() && 0 <= j < distances@.len() && i != j ==> is_number_key(
                #[trigger] distances@[i]@[j],
            ),
    ensures
        rows@.len() == centroids@.len() * neighbors_per_centroid(centroids@.len() as int, limit),
        exists|order: Seq<Seq<int>>|
            #[trigger] is_neighbor_table(
                centroids@,
                distances@,
                limit,
                order,
                table_fields(rows@),
            ),
        forall|i: int, r: int|
            0 <= i < centroids@.len() && 0 <= r < neighbors_per_centroid(centroids@.len() as int, limit)
                ==> (#[trigger] block_row(
                table_fields(rows@),
                neighbors_per_centroid(centroids@.len() as int, limit),
                i,
                r,
            )).0 == centroids@[i].id && block_row(
                table_fields(rows@),
                neighbors_per_centroid(centroids@.len() as int, limit),
                i,
                r,
            ).3 == r + 1,
        forall|i: int, r: int, s: int|
            0 <= i < centroids@.len() && 0 <= r < s < neighbors_per_centroid(centroids@.len() as int, limit)
                ==> (#[trigger] block_row(
                table_fields(rows@),
                neighbors_per_centroid(centroids@.len() as int, limit),
                i,
                r,
            )).2 <= (#[trigger] block_row(
                table_fields(rows@),
                neighbors_per_centroid(centroids@.len() as int, limit),
                i,
                s,
            )).2,
{
    let n = centroids.len();
    let ghost t = neighbors_per_centroid(n as int, limit);
    let mut rows: Vec<Neighbor> = Vec::new();
    let ghost mut order: Seq<Seq<int>> = Seq::empty();
    for i in 0..n
        invariant
            n == centroids@.len(),
            distances@.len() == n,
            forall|k: int| 0 <= k < distances@.len() ==> (#[trigger] distances@[k])@.len() == n,
            t == neighbors_per_centroid(n as int, limit),
            order.len() == i,
            forall|k: int| 0 <= k < i ==> is_nearest_order(distances@[k]@, n as int, k, t, #[trigger] order[k]),
            table_fields(rows@) == Seq::new(
                i as nat,
                |k: int| ranked_block(centroids@, distances@[k]@, k, order[k]),
            ).flatten_alt(),
            rows@.len() == i * t,
    {
        let row = &distances[i];
        let sorted = sorted_neighbors(row, i);
        let take: usize = match limit {
            Some(l) => if l < sorted.len() { l } else { sorted.len() },
            None => sorted.len(),
        };
        assert(take == t);
        let ghost js: Seq<int> = sorted@.take(take as int).map_values(|x: usize| x as int);
        let ghost base = table_fields(rows@);
        let ghost block = ranked_block(centroids@, row@, i as int, js);
        for r in 0..take
            invariant
                n == centroids@.len(),
                i < n,
                take <= sorted@.len(),
                sorted@.len() == n - 1,
                forall|q: int| 0 <= q < sorted@.len() ==> #[trigger] sorted@[q] < n,
                js == sorted@.take(take as int).map_values(|x: usize| x as int),
                block == ranked_block(centroids@, row@, i as int, js),
                row@.len() == n,
                table_fields(rows@) == base + block.take(r as int),
        {
            let j = sorted[r];
            let ghost old_rows = rows@;
            rows.push(
                Neighbor {
                    centroid_id: centroids[i].id,
                    neighbor_id: centroids[j].id,
                    distance: row[j],
                    rank: r + 1,
                },
            );
            assert(block.take(r + 1) =~= block.take(r as int).push(block[r as int]));
            assert(js[r as int] == j as int);
            assert(row_fields(rows@[rows@.len() - 1]) == block[r as int]);
            assert(table_fields(rows@) =~= table_fields(old_rows).push(row_fields(rows@[rows@.len() - 1])));
            assert(table_fields(rows@) =~= base + block.take(r + 1));
        }
        assert(block.take(take as int) =~= block);
        proof {
            assert forall|x: int, q: int|
                0 <= x < n && x != i && !js.contains(x) && 0 <= q < t implies #[trigger] precedes(
                row@,
                js[q],
                x,
            ) by {
                assert(sorted@.contains(x as usize));
                let p = choose|p: int| 0 <= p < sorted@.len() && sorted@[p] == x as usize;
                if p < take {
                    assert(js[p] == x);
                }
                assert(js[q] == sorted@[q] as int);
            }
            assert forall|a: int, b: int| 0 <= a < b < t implies precedes(row@, #[trigger] js[a], #[trigger] js[b]) by {
                assert(js[a] == sorted@[a] as int && js[b] == sorted@[b] as int);
            }
            let ghost old_order = order;
            order = order.push(js);
            let ghost blocks_old = Seq::new(
                i as nat,
                |k: int| ranked_block(centroids@, distances@[k]@, k, old_order[k]),
            );
            let ghost blocks_new = Seq::new(
                (i + 1) as nat,
                |k: int| ranked_block(centroids@, distances@[k]@, k, order[k]),
            );
            assert(blocks_new.drop_last() =~= blocks_old);
            assert(blocks_new.last() == block);
            assert(blocks_new.flatten_alt() == blocks_old.flatten_alt() + block);
            assert((i + 1) * t == i * t + t) by (nonlinear_arith);
        }
    }
    proof {
        assert(rows@.len() == n * t);
        assert(is_neighbor_table(
            centroids@,
            distances@,
            limit,
            order,
            table_fields(rows@),
        ));
        lemma_neighbor_table_ranked(centroids@, distances@, limit, order, table_fields(rows@));
    }
    rows
}

} // verus!
