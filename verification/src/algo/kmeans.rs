use rand::rngs::StdRng;
use vstd::prelude::*;

use crate::model::centroid::centroid_view;
use crate::model::Centroid;

verus! {

/// Centroid initialization strategy.
#[derive(Clone, Copy, Debug, PartialEq, Eq, Structural)]
pub enum Init {
    /// k-means++ seeding: spread initial centroids apart.
    PlusPlus,
    /// Uniform random sampling of k distinct input points.
    Random,
}

/// The outcome of a fit.
pub struct FitResult {
    pub centroids: Vec<Centroid>,
    pub data_count: usize,
    pub converged: bool,
    pub iterations: usize,
}

// Distances reach this module as "keys": the IEEE-754 bit patterns of the
// double-precision distances. A distance is never negative, so a key at most
// `INFINITY_KEY` is a number and keys of numbers order exactly as the
// numbers do; a larger key is a NaN, which compares false with everything.

/// The key of positive infinity.
pub const INFINITY_KEY: u64 = 0x7ff0_0000_0000_0000;

/// The key of the convergence threshold, one millionth.
pub const CONVERGENCE_KEY: u64 = 0x3eb0_c6f7_a0b5_ed8d;

/// The key stands for a number (not a NaN).
pub open spec fn is_number_key(k: u64) -> bool {
    k <= INFINITY_KEY
}

/// Floating-point `<` on the distances whose keys are `a` and `b`.
pub open spec fn key_less(a: u64, b: u64) -> bool {
    is_number_key(a) && is_number_key(b) && a < b
}

/// Why a fit was refused.
#[derive(Clone, Copy, Debug, PartialEq, Eq, Structural)]
pub enum FitError {
    NoPoints,
    ZeroClusters,
    TooManyClusters,
    ZeroMaxIters,
    ZeroDimensions,
    InconsistentDimensions,
}

/// What `FitError::message` returns.
pub open spec fn fit_error_text(e: FitError) -> Seq<char> {
    match e {
        FitError::NoPoints => "no input points"@,
        FitError::ZeroClusters => "k must be greater than 0"@,
        FitError::TooManyClusters => "k must be <= number of points"@,
        FitError::ZeroMaxIters => "max_iters must be greater than 0"@,
        FitError::ZeroDimensions => "points must have at least one dimension"@,
        FitError::InconsistentDimensions => "inconsistent point dimensionality"@,
    }
}

impl FitError {
    /// The message shown to a user.
    pub fn message(&self) -> (m: String)
        ensures
            m@ == fit_error_text(*self),
    {
        match self {
            FitError::NoPoints => String::from_str("no input points"),
            FitError::ZeroClusters => String::from_str("k must be greater than 0"),
            FitError::TooManyClusters => String::from_str("k must be <= number of points"),
            FitError::ZeroMaxIters => String::from_str("max_iters must be greater than 0"),
            FitError::ZeroDimensions => String::from_str("points must have at least one dimension"),
            FitError::InconsistentDimensions => String::from_str("inconsistent point dimensionality"),
        }
    }
}

/// What a fit decides before it starts, from the number of coordinates of
/// each point, `k` and the iteration cap: the first refusal that applies, or
/// the dimension of the points.
pub open spec fn fit_input_outcome(coord_counts: Seq<usize>, k: usize, max_iters: usize) -> Result<
    usize,
    FitError,
> {
    if coord_counts.len() == 0 {
        Err(FitError::NoPoints)
    } else if k == 0 {
        Err(FitError::ZeroClusters)
    } else if k > coord_counts.len() {
        Err(FitError::TooManyClusters)
    } else if max_iters == 0 {
        Err(FitError::ZeroMaxIters)
    } else if coord_counts[0] == 0 {
        Err(FitError::ZeroDimensions)
    } else if exists|i: int| 0 <= i < coord_counts.len() && #[trigger] coord_counts[i] != coord_counts[0] {
        Err(FitError::InconsistentDimensions)
    } else {
        Ok(coord_counts[0])
    }
}

/// Checks a fit's input: at least one point, `0 < k <= points`, a positive
/// iteration cap, and points of one positive dimension, which it returns.
#[verifier::loop_isolation(false)]
pub fn validate_fit_input(coord_counts: &Vec<usize>, k: usize, max_iters: usize) -> (r: Result<
    usize,
    FitError,
>)
    ensures
        r == fit_input_outcome(coord_counts@, k, max_iters),
{
    if coord_counts.len() == 0 {
        return Err(FitError::NoPoints);
    }
    if k == 0 {
        return Err(FitError::ZeroClusters);
    }
    if k > coord_counts.len() {
        return Err(FitError::TooManyClusters);
    }
    if max_iters == 0 {
        return Err(FitError::ZeroMaxIters);
    }
    let dims = coord_counts[0];
    if dims == 0 {
        return Err(FitError::ZeroDimensions);
    }
    for i in 0..coord_counts.len()
        invariant
            dims == coord_counts@[0],
            forall|j: int| 0 <= j < i ==> #[trigger] coord_counts@[j] == dims,
    {
        if coord_counts[i] != dims {
            assert(coord_counts@[i as int] != coord_counts@[0]);
            return Err(FitError::InconsistentDimensions);
        }
    }
    Ok(dims)
}

/// `i` is where a scan keeping the first strictly nearer distance ends: the
/// first position of the smallest key, which is a number below infinity.
pub open spec fn is_nearest(keys: Seq<u64>, i: int) -> bool {
    &&& 0 <= i < keys.len()
    &&& key_less(keys[i], INFINITY_KEY)
    &&& forall|j: int| 0 <= j < i ==> key_less(keys[i], #[trigger] keys[j]) || !is_number_key(keys[j])
    &&& forall|j: int| i < j < keys.len() ==> !key_less(#[trigger] keys[j], keys[i])
}

/// The nearest of some candidates, given the keys of their distances: the
/// first position whose distance is smallest, with that key; `None` with the
/// key of infinity when no distance is a number below infinity.
pub fn nearest(keys: &Vec<u64>) -> (r: (Option<usize>, u64))
    ensures
        match r.0 {
            Some(i) => is_nearest(keys@, i as int) && r.1 == keys@[i as int],
            None => r.1 == INFINITY_KEY && forall|j: int|
                0 <= j < keys@.len() ==> !key_less(#[trigger] keys@[j], INFINITY_KEY),
        },
{
    let mut best: Option<usize> = None;
    let mut best_key: u64 = INFINITY_KEY;
    for j in 0..keys.len()
        invariant
            is_number_key(best_key),
            match best {
                Some(i) => i < j && is_nearest(keys@.take(j as int), i as int) && best_key == keys@[i as int],
                None => best_key == INFINITY_KEY && forall|q: int|
                    0 <= q < j ==> !key_less(#[trigger] keys@[q], INFINITY_KEY),
            },
    {
        let d = keys[j];
        if d <= INFINITY_KEY && d < best_key {
            best = Some(j);
            best_key = d;
        }
        proof {
            let t = keys@.take(j + 1);
            if let Some(i) = best {
                assert forall|q: int| 0 <= q < i implies key_less(t[i as int], #[trigger] t[q]) || !is_number_key(t[q]) by {
                    if i == j {
                        if is_number_key(keys@[q]) && keys@[q] <= keys@[i as int] {
                            assert(!key_less(keys@[q], INFINITY_KEY) || q < j);
                        }
                    } else {
                        assert(keys@.take(j as int)[q] == t[q]);
                    }
                }
                assert forall|q: int| i < q < t.len() implies !key_less(#[trigger] t[q], t[i as int]) by {
                    if q < j {
                        assert(keys@.take(j as int)[q] == t[q]);
                    }
                }
            }
        }
    }
    assert(keys@.take(keys@.len() as int) =~= keys@);
    (best, best_key)
}

/// How many entries of `s` equal `c`.
pub open spec fn count_of(s: Seq<usize>, c: usize) -> nat
    decreases s.len(),
{
    if s.len() == 0 {
        0
    } else {
        count_of(s.drop_last(), c) + if s.last() == c {
            1nat
        } else {
            0nat
        }
    }
}

/// The sum of the first `k` entries of `counts`.
pub open spec fn sum_prefix(counts: Seq<nat>, k: int) -> int
    decreases k,
{
    if k <= 0 {
        0
    } else {
        sum_prefix(counts, k - 1) + counts[k - 1]
    }
}

/// The assignment a point gets: its nearest centroid, or the first when no
/// distance is a number below infinity.
pub open spec fn assigned_cluster(keys: Seq<u64>) -> int {
    if exists|i: int| is_nearest(keys, i) {
        choose|i: int| is_nearest(keys, i)
    } else {
        0
    }
}

/// The nearest distance is no larger than any other distance that is a
/// number, and strictly smaller than those before it.
pub proof fn lemma_nearest_is_minimal(keys: Seq<u64>, i: int)
    requires
        is_nearest(keys, i),
    ensures
        forall|j: int| 0 <= j < keys.len() && is_number_key(#[trigger] keys[j]) ==> keys[i] <= keys[j],
        forall|j: int| 0 <= j < i && is_number_key(#[trigger] keys[j]) ==> keys[i] < keys[j],
{
    assert forall|j: int| 0 <= j < keys.len() && is_number_key(#[trigger] keys[j]) implies keys[i] <= keys[j] by {
        if j < i {
            assert(key_less(keys[i], keys[j]) || !is_number_key(keys[j]));
        } else if j > i {
            assert(!key_less(keys[j], keys[i]));
        }
    }
}

/// At most one position is nearest.
pub proof fn lemma_nearest_unique(keys: Seq<u64>, i: int, j: int)
    requires
        is_nearest(keys, i),
        is_nearest(keys, j),
    ensures
        i == j,
{
    if i < j {
        assert(key_less(keys[j], keys[i]) || !is_number_key(keys[i]));
    } else if j < i {
        assert(key_less(keys[i], keys[j]) || !is_number_key(keys[j]));
    }
}

/// The effect of one assignment pass.
pub struct AssignmentPass {
    /// Some point moved to another cluster.
    pub changed: bool,
    /// The number of points in each cluster.
    pub counts: Vec<usize>,
    /// The key of each point's distance to its cluster (infinity when no
    /// distance was a number below it).
    pub best_keys: Vec<u64>,
}

/// Assigns every point to its nearest centroid. `key_rows[p][c]` is the key
/// of the distance from point `p` to centroid `c`; `assignments` holds each
/// point's previous cluster and is updated in place.
pub fn assign_to_clusters(key_rows: &Vec<Vec<u64>>, assignments: &mut Vec<usize>, k: usize) -> (pass:
    AssignmentPass)
    requires
        k > 0,
        old(assignments)@.len() == key_rows@.len(),
        forall|p: int| 0 <= p < key_rows@.len() ==> (#[trigger] key_rows@[p])@.len() == k,
    ensures
        final(assignments)@.len() == key_rows@.len(),
        forall|p: int| 0 <= p < key_rows@.len() ==> #[trigger] final(assignments)@[p] < k,
        forall|p: int|
            0 <= p < key_rows@.len() ==> #[trigger] final(assignments)@[p] as int == assigned_cluster(
                key_rows@[p]@,
            ),
        pass.changed == exists|p: int|
            0 <= p < key_rows@.len() && #[trigger] old(assignments)@[p] != final(assignments)@[p],
        pass.counts@.len() == k,
        forall|c: int| 0 <= c < k ==> #[trigger] pass.counts@[c] == count_of(final(assignments)@, c as usize),
        pass.best_keys@.len() == key_rows@.len(),
        forall|p: int|
            0 <= p < key_rows@.len() ==> #[trigger] pass.best_keys@[p] == if exists|i: int|
                is_nearest(key_rows@[p]@, i) {
                key_rows@[p]@[assigned_cluster(key_rows@[p]@)]
            } else {
                INFINITY_KEY
            },
{
    let n = key_rows.len();
    let mut counts: Vec<usize> = Vec::new();
    for c in 0..k
        invariant
            counts@.len() == c,
            forall|q: int| 0 <= q < c ==> #[trigger] counts@[q] == 0,
    {
        counts.push(0);
    }
    let mut best_keys: Vec<u64> = Vec::new();
    let mut changed = false;
    let ghost prior = assignments@;
    for p in 0..n
        invariant
            n == key_rows@.len(),
            k > 0,
            forall|q: int| 0 <= q < key_rows@.len() ==> (#[trigger] key_rows@[q])@.len() == k,
            assignments@.len() == n,
            prior.len() == n,
            forall|q: int| p <= q < n ==> #[trigger] assignments@[q] == prior[q],
            forall|q: int| 0 <= q < p ==> #[trigger] assignments@[q] as int == assigned_cluster(key_rows@[q]@),
            forall|q: int| 0 <= q < p ==> #[trigger] assignments@[q] < k,
            changed == exists|q: int| 0 <= q < p && #[trigger] prior[q] != assignments@[q],
            counts@.len() == k,
            forall|c: int| 0 <= c < k ==> #[trigger] counts@[c] == count_of(assignments@.take(p as int), c as usize),
            best_keys@.len() == p,
            forall|q: int|
                0 <= q < p ==> #[trigger] best_keys@[q] == if exists|i: int| is_nearest(key_rows@[q]@, i) {
                    key_rows@[q]@[assigned_cluster(key_rows@[q]@)]
                } else {
                    INFINITY_KEY
                },
    {
        let (found, key) = nearest(&key_rows[p]);
        let best: usize = match found {
            Some(i) => i,
            None => 0,
        };
        proof {
            let row = key_rows@[p as int]@;
            if let Some(i) = found {
                let c = choose|x: int| is_nearest(row, x);
                lemma_nearest_unique(row, c, i as int);
            }
        }
        let ghost before = assignments@;
        if assignments[p] != best {
            assignments.set(p, best);
            changed = true;
        }
        assert(assignments@.take(p + 1) =~= before.take(p as int).push(best));
        assert(before.take(p as int) =~= assignments@.take(p as int)) by {
            assert forall|q: int| 0 <= q < p implies before[q] == assignments@[q] by {}
        }
        assert(assignments@.take(p + 1).drop_last() =~= assignments@.take(p as int));
        // the counts bound: a count never exceeds the points seen
        proof {
            lemma_count_le_len(assignments@.take(p as int), best);
        }
        let old_count = counts[best];
        counts.set(best, old_count + 1);
        best_keys.push(key);
    }
    assert(assignments@.take(n as int) =~= assignments@);
    AssignmentPass { changed, counts, best_keys }
}

proof fn lemma_count_le_len(s: Seq<usize>, c: usize)
    ensures
        count_of(s, c) <= s.len(),
    decreases s.len(),
{
    if s.len() > 0 {
        lemma_count_le_len(s.drop_last(), c);
    }
}

/// The cluster sizes of an assignment add up to the number of points: every
/// point is counted in exactly one of the `k` clusters.
pub proof fn lemma_cluster_sizes_sum(assignments: Seq<usize>, k: usize)
    requires
        forall|p: int| 0 <= p < assignments.len() ==> #[trigger] assignments[p] < k,
    ensures
        sum_prefix(Seq::new(k as nat, |c: int| count_of(assignments, c as usize)), k as int)
            == assignments.len(),
    decreases assignments.len(),
{
    let counts = Seq::new(k as nat, |c: int| count_of(assignments, c as usize));
    if assignments.len() == 0 {
        lemma_sum_zero(counts, k as int);
    } else {
        let rest = assignments.drop_last();
        let last = assignments.last();
        lemma_cluster_sizes_sum(rest, k);
        let rest_counts = Seq::new(k as nat, |c: int| count_of(rest, c as usize));
        lemma_sum_bump(rest_counts, counts, k as int, last as int);
    }
}

proof fn lemma_sum_zero(counts: Seq<nat>, k: int)
    requires
        0 <= k <= counts.len(),
        forall|c: int| 0 <= c < k ==> #[trigger] counts[c] == 0,
    ensures
        sum_prefix(counts, k) == 0,
    decreases k,
{
    if k > 0 {
        lemma_sum_zero(counts, k - 1);
    }
}

proof fn lemma_sum_bump(a: Seq<nat>, b: Seq<nat>, k: int, at: int)
    requires
        0 <= k <= a.len(),
        a.len() == b.len(),
        forall|c: int| 0 <= c < k && c != at ==> #[trigger] b[c] == a[c],
        0 <= at < a.len() ==> b[at] == a[at] + 1,
    ensures
        sum_prefix(b, k) == sum_prefix(a, k) + if 0 <= at < k {
            1int
        } else {
            0int
        },
    decreases k,
{
    if k > 0 {
        lemma_sum_bump(a, b, k - 1, at);
    }
}

/// Whether a fit stops after an iteration: no point changed cluster, or the
/// largest centroid shift (among those that are numbers) is below one
/// millionth. `shift_keys` are the keys of the shifts.
pub open spec fn stops(changed: bool, shift_keys: Seq<u64>) -> bool {
    !changed || key_less(largest_shift(shift_keys), CONVERGENCE_KEY)
}

/// The largest shift, found as a scan from zero that keeps a strictly
/// greater number.
pub open spec fn largest_shift(shift_keys: Seq<u64>) -> u64
    decreases shift_keys.len(),
{
    if shift_keys.len() == 0 {
        0
    } else {
        let m = largest_shift(shift_keys.drop_last());
        if key_less(m, shift_keys.last()) {
            shift_keys.last()
        } else {
            m
        }
    }
}

/// The largest shift is the maximum of the shifts that are numbers: a
/// number, at least every number among the shifts, and one of them (or zero
/// when none is a number).
pub proof fn lemma_largest_shift_is_maximum(shift_keys: Seq<u64>)
    ensures
        largest_shift(shift_keys) <= INFINITY_KEY,
        forall|i: int|
            0 <= i < shift_keys.len() && #[trigger] shift_keys[i] <= INFINITY_KEY ==> shift_keys[i]
                <= largest_shift(shift_keys),
        largest_shift(shift_keys) == 0 || exists|i: int|
            0 <= i < shift_keys.len() && #[trigger] shift_keys[i] == largest_shift(shift_keys),
    decreases shift_keys.len(),
{
    if shift_keys.len() > 0 {
        let rest = shift_keys.drop_last();
        lemma_largest_shift_is_maximum(rest);
        assert forall|i: int|
            0 <= i < shift_keys.len() && #[trigger] shift_keys[i] <= INFINITY_KEY implies shift_keys[i]
                <= largest_shift(shift_keys) by {
            if i < shift_keys.len() - 1 {
                assert(rest[i] == shift_keys[i]);
            }
        }
        if largest_shift(shift_keys) != 0 {
            if largest_shift(shift_keys) == largest_shift(rest) {
                let i = choose|i: int| 0 <= i < rest.len() && #[trigger] rest[i] == largest_shift(rest);
                assert(shift_keys[i] == rest[i]);
            } else {
                assert(shift_keys[shift_keys.len() - 1] == largest_shift(shift_keys));
            }
        }
    }
}

/// The stopping rule in terms of the shifts themselves: a fit in which no
/// point changed cluster stops; one in which a point changed stops exactly
/// when every shift that is a number is below one millionth.
pub proof fn lemma_stops_iff_all_shifts_small(changed: bool, shift_keys: Seq<u64>)
    ensures
        !changed ==> stops(changed, shift_keys),
        changed ==> (stops(changed, shift_keys) <==> forall|i: int|
            0 <= i < shift_keys.len() && #[trigger] shift_keys[i] <= INFINITY_KEY ==> shift_keys[i]
                < CONVERGENCE_KEY),
{
    lemma_largest_shift_is_maximum(shift_keys);
    let m = largest_shift(shift_keys);
    if changed {
        if forall|i: int|
            0 <= i < shift_keys.len() && #[trigger] shift_keys[i] <= INFINITY_KEY ==> shift_keys[i]
                < CONVERGENCE_KEY {
            if m != 0 {
                let i = choose|i: int| 0 <= i < shift_keys.len() && #[trigger] shift_keys[i] == m;
                assert(shift_keys[i] <= INFINITY_KEY);
            }
        }
    }
}

/// Decides whether a fit has converged after an iteration: when no point
/// changed cluster, or when every centroid shift that is a number is below
/// one millionth.
pub fn has_converged(changed: bool, shift_keys: &Vec<u64>) -> (r: bool)
    ensures
        r == stops(changed, shift_keys@),
        !changed ==> r,
        changed ==> (r <==> forall|i: int|
            0 <= i < shift_keys@.len() && #[trigger] shift_keys@[i] <= INFINITY_KEY ==> shift_keys@[i]
                < CONVERGENCE_KEY),
{
    proof {
        lemma_stops_iff_all_shifts_small(changed, shift_keys@);
    }
    let mut max_shift: u64 = 0;
    for i in 0..shift_keys.len()
        invariant
            max_shift == largest_shift(shift_keys@.take(i as int)),
    {
        let shift = shift_keys[i];
        proof {
            assert(shift_keys@.take(i + 1).drop_last() =~= shift_keys@.take(i as int));
            assert(shift_keys@.take(i + 1).last() == shift);
        }
        if shift <= INFINITY_KEY && max_shift <= INFINITY_KEY && max_shift < shift {
            max_shift = shift;
        }
    }
    assert(shift_keys@.take(shift_keys@.len() as int) =~= shift_keys@);
    !changed || (max_shift <= INFINITY_KEY && max_shift < CONVERGENCE_KEY)
}

#[verifier::external_type_specification]
#[verifier::external_body]
pub struct ExStdRng(StdRng);

/// Calls `rand::seq::index::sample(rng, length, amount)`, which draws
/// `amount` distinct indices from `0..length` (it panics when `amount >
/// length`, which `requires` rules out). The contract claims what holds of
/// every draw: the count, the range and the distinctness; which indices come
/// out depends on the generator's state.
#[verifier::external_body]
fn sample_indices(rng: &mut StdRng, length: usize, amount: usize) -> (v: Vec<usize>)
    requires
        amount <= length,
    ensures
        v@.len() == amount,
        forall|i: int| 0 <= i < v@.len() ==> #[trigger] v@[i] < length,
        forall|i: int, j: int| 0 <= i < j < v@.len() ==> #[trigger] v@[i] != #[trigger] v@[j],
{
    rand::seq::index::sample(rng, length, amount).into_vec()
}

/// Calls `rng.random_range(0..n)` (`rand::Rng::random_range`), which draws an
/// index uniformly from `0..n` and panics on an empty range, which
/// `requires` rules out. The contract claims what holds of every draw: the
/// index is in range.
#[verifier::external_body]
fn random_index(rng: &mut StdRng, n: usize) -> (i: usize)
    requires
        n > 0,
    ensures
        i < n,
{
    rand::Rng::random_range(rng, 0..n)
}

/// Where each cluster's next centroid comes from after an assignment pass:
/// the mean of its points (`None`) when it has some, else the point at a
/// random index (`Some`), drawn in cluster order.
pub fn next_centroid_sources(counts: &Vec<usize>, n_points: usize, rng: &mut StdRng) -> (sources: Vec<
    Option<usize>,
>)
    requires
        n_points > 0,
    ensures
        sources@.len() == counts@.len(),
        forall|c: int|
            0 <= c < counts@.len() ==> match #[trigger] sources@[c] {
                Some(i) => counts@[c] == 0 && i < n_points,
                None => counts@[c] > 0,
            },
{
    let mut sources: Vec<Option<usize>> = Vec::new();
    for c in 0..counts.len()
        invariant
            n_points > 0,
            sources@.len() == c,
            forall|q: int|
                0 <= q < c ==> match #[trigger] sources@[q] {
                    Some(i) => counts@[q] == 0 && i < n_points,
                    None => counts@[q] > 0,
                },
    {
        if counts[c] == 0 {
            let idx = random_index(rng, n_points);
            sources.push(Some(idx));
        } else {
            sources.push(None);
        }
    }
    sources
}

/// `centroids` are initial centroids drawn from `points` at the distinct
/// positions `chosen`: centroid `c` has id `c`, the coordinates of point
/// `chosen[c]`, and no size or error yet.
pub open spec fn drawn_from(points: Seq<Vec<u64>>, chosen: Seq<usize>, centroids: Seq<Centroid>) -> bool {
    &&& centroids.len() == chosen.len()
    &&& forall|i: int, j: int| 0 <= i < j < chosen.len() ==> #[trigger] chosen[i] != #[trigger] chosen[j]
    &&& forall|c: int|
        0 <= c < centroids.len() ==> {
            &&& #[trigger] chosen[c] < points.len()
            &&& centroid_view(centroids[c]) == (c as usize, points[chosen[c] as int]@, None::<usize>, None::<u64>)
        }
}

/// Uniform random selection of `k` distinct points (given by their
/// coordinate keys) as initial centroids, with ids `0..k`.
pub fn init_random(points: &Vec<Vec<u64>>, k: usize, rng: &mut StdRng) -> (centroids: Vec<Centroid>)
    requires
        k <= points@.len(),
    ensures
        centroids@.len() == k,
        exists|chosen: Seq<usize>| #[trigger] drawn_from(points@, chosen, centroids@),
{
    let chosen = sample_indices(rng, points.len(), k);
    let mut centroids: Vec<Centroid> = Vec::new();
    for c in 0..k
        invariant
            chosen@.len() == k,
            forall|i: int| 0 <= i < chosen@.len() ==> #[trigger] chosen@[i] < points@.len(),
            forall|i: int, j: int| 0 <= i < j < chosen@.len() ==> #[trigger] chosen@[i] != #[trigger] chosen@[j],
            centroids@.len() == c,
            forall|q: int|
                0 <= q < c ==> centroid_view(#[trigger] centroids@[q]) == (
                    q as usize,
                    points@[chosen@[q] as int]@,
                    None::<usize>,
                    None::<u64>,
                ),
    {
        let idx = chosen[c];
        centroids.push(Centroid { id: c, coords: points[idx].clone(), size: None, sse: None });
    }
    assert(drawn_from(points@, chosen@, centroids@));
    centroids
}

} // verus!
