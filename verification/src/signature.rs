use vstd::prelude::*;

use crate::geom::Coordinate;

verus! {

/// Fixed-point unit for normalized radial lengths and similarity scores: a
/// value of `SCALE` stands for the real number 1.0.
pub const SCALE: u64 = 1_000_000;

/// The four-fold symmetric energy of degree `d`: the bucket value at `d` plus
/// the values a quarter, a half and three quarters of a turn away.
pub open spec fn total_at(lengths: Seq<u64>, d: int) -> int {
    lengths[d % 360] + lengths[(d + 90) % 360] + lengths[(d + 180) % 360] + lengths[(d + 270)
        % 360]
}

/// Candidate degree `c` beats the current best `b` when its four-fold energy
/// is strictly larger, or equal with a strictly larger own bucket value.
pub open spec fn better_candidate(lengths: Seq<u64>, c: int, b: int) -> bool {
    ||| total_at(lengths, c) > total_at(lengths, b)
    ||| (total_at(lengths, c) == total_at(lengths, b) && lengths[c] > lengths[b])
}

/// The dominant degree after scanning candidates `0..n`: the first degree
/// carrying the lexicographically largest (four-fold energy, bucket value)
/// pair among them.
pub open spec fn dominant_upto(lengths: Seq<u64>, n: int) -> int
    decreases n,
{
    if n <= 1 {
        0
    } else {
        if better_candidate(lengths, n - 1, dominant_upto(lengths, n - 1)) {
            n - 1
        } else {
            dominant_upto(lengths, n - 1)
        }
    }
}

/// The dominant degree of a full 360-bucket signature.
pub open spec fn dominant_degree(lengths: Seq<u64>) -> int {
    dominant_upto(lengths, 360)
}

proof fn lemma_dominant_upto_props(lengths: Seq<u64>, n: int)
    requires
        lengths.len() == 360,
        1 <= n <= 360,
    ensures
        0 <= dominant_upto(lengths, n) < n,
        forall|d: int|
            0 <= d < n ==> total_at(lengths, dominant_upto(lengths, n)) >= #[trigger] total_at(
                lengths,
                d,
            ),
        forall|d: int|
            0 <= d < n && #[trigger] total_at(lengths, d) == total_at(
                lengths,
                dominant_upto(lengths, n),
            ) ==> lengths[d] <= lengths[dominant_upto(lengths, n)],
        forall|d: int|
            0 <= d < dominant_upto(lengths, n) ==> #[trigger] total_at(lengths, d) < total_at(
                lengths,
                dominant_upto(lengths, n),
            ) || lengths[d] < lengths[dominant_upto(lengths, n)],
    decreases n,
{
    if n > 1 {
        lemma_dominant_upto_props(lengths, n - 1);
    }
}

/// The dominant degree is the argmax of the four-fold bucket sum; among equal
/// sums the larger own bucket value wins, and among full ties the first
/// degree encountered wins.
pub proof fn lemma_dominant_is_argmax(lengths: Seq<u64>)
    requires
        lengths.len() == 360,
    ensures
        0 <= dominant_degree(lengths) < 360,
        forall|d: int|
            0 <= d < 360 ==> total_at(lengths, dominant_degree(lengths)) >= #[trigger] total_at(
                lengths,
                d,
            ),
        forall|d: int|
            0 <= d < 360 && #[trigger] total_at(lengths, d) == total_at(
                lengths,
                dominant_degree(lengths),
            ) ==> lengths[d] <= lengths[dominant_degree(lengths)],
        forall|d: int|
            0 <= d < dominant_degree(lengths) ==> #[trigger] total_at(lengths, d) < total_at(
                lengths,
                dominant_degree(lengths),
            ) || lengths[d] < lengths[dominant_degree(lengths)],
{
    lemma_dominant_upto_props(lengths, 360);
}

/// A rotation-aware radial descriptor of one region's silhouette: 360
/// one-degree buckets of normalized boundary distance from the centroid,
/// together with the derived dominant degree.
pub struct RegionSignature {
    pub id: String,
    pub group_name: String,
    pub centroid: Coordinate,
    /// The bucket width in milli-degrees; signatures built here use 1000.
    pub bucket_width_milli: u32,
    /// 360 entries; `SCALE` stands for the farthest original vertex.
    pub lengths: Vec<u64>,
    /// The dominant degree and the bucket value stored at it.
    pub dominant: (usize, u64),
}

/// An element-wise copy of a bucket vector.
pub(crate) fn copy_lengths(v: &Vec<u64>) -> (r: Vec<u64>)
    ensures
        r@ == v@,
{
    let mut r: Vec<u64> = Vec::new();
    let mut i: usize = 0;
    while i < v.len()
        invariant
            i <= v@.len(),
            r@ == v@.take(i as int),
        decreases v@.len() - i,
    {
        r.push(v[i]);
        proof {
            assert(r@ =~= v@.take(i + 1));
        }
        i = i + 1;
    }
    proof {
        assert(v@.take(v@.len() as int) =~= v@);
    }
    r
}

impl Clone for RegionSignature {
    /// A field-wise copy of the signature.
    fn clone(&self) -> (r: Self)
        ensures
            sig_like(r, *self),
    {
        RegionSignature {
            id: self.id.clone(),
            group_name: self.group_name.clone(),
            centroid: self.centroid,
            bucket_width_milli: self.bucket_width_milli,
            lengths: copy_lengths(&self.lengths),
            dominant: (self.dominant.0, self.dominant.1),
        }
    }
}

/// Structural bounds every signature produced by the builder satisfies:
/// 360 buckets, each a fraction in `[0, SCALE]`, dominant degree in range.
pub open spec fn sig_bounds(s: RegionSignature) -> bool {
    &&& s.lengths@.len() == 360
    &&& forall|i: int| 0 <= i < 360 ==> s.lengths@[i] <= SCALE
    &&& s.dominant.0 < 360
}

/// A well-formed signature additionally carries the dominant pair that its
/// own buckets determine: `dominant` is derived, never free-standing.
pub open spec fn sig_wf(s: RegionSignature) -> bool {
    &&& sig_bounds(s)
    &&& s.dominant.0 == dominant_degree(s.lengths@)
    &&& s.dominant.1 == s.lengths@[dominant_degree(s.lengths@)]
}

/// Field-wise agreement of two signature values.
pub open spec fn sig_like(a: RegionSignature, b: RegionSignature) -> bool {
    &&& a.id == b.id
    &&& a.group_name == b.group_name
    &&& a.centroid == b.centroid
    &&& a.bucket_width_milli == b.bucket_width_milli
    &&& a.lengths@ == b.lengths@
    &&& a.dominant == b.dominant
}

/// The buckets of `lengths` read starting from `offset`, wrapping around.
pub open spec fn arranged(lengths: Seq<u64>, offset: int) -> Seq<u64> {
    Seq::new(360, |k: int| lengths[(offset + k) % 360])
}

pub open spec fn abs_diff(a: int, b: int) -> int {
    if a >= b {
        a - b
    } else {
        b - a
    }
}

/// The summed absolute difference of the first `n` entries of two bucket
/// sequences.
pub open spec fn dist_sum(a: Seq<u64>, b: Seq<u64>, n: int) -> int
    decreases n,
{
    if n <= 0 {
        0
    } else {
        dist_sum(a, b, n - 1) + abs_diff(a[n - 1] as int, b[n - 1] as int)
    }
}

/// The distance between two signatures: the summed absolute difference of
/// their self-aligned buckets, in units of `1/(360*SCALE)`.
pub open spec fn sig_dist(a: RegionSignature, b: RegionSignature) -> int {
    dist_sum(
        arranged(a.lengths@, a.dominant.0 as int),
        arranged(b.lengths@, b.dominant.0 as int),
        360,
    )
}

proof fn lemma_dist_sum_symmetric(a: Seq<u64>, b: Seq<u64>, n: int)
    ensures
        dist_sum(a, b, n) == dist_sum(b, a, n),
    decreases n,
{
    if n > 0 {
        lemma_dist_sum_symmetric(a, b, n - 1);
    }
}

proof fn lemma_dist_sum_self_zero(a: Seq<u64>, n: int)
    ensures
        dist_sum(a, a, n) == 0,
    decreases n,
{
    if n > 0 {
        lemma_dist_sum_self_zero(a, n - 1);
    }
}

/// Signature distance is symmetric: both sides are aligned to their own
/// dominant degree before comparison, so the roles of the two are equal.
pub proof fn lemma_distance_symmetric(a: RegionSignature, b: RegionSignature)
    ensures
        sig_dist(a, b) == sig_dist(b, a),
{
    lemma_dist_sum_symmetric(
        arranged(a.lengths@, a.dominant.0 as int),
        arranged(b.lengths@, b.dominant.0 as int),
        360,
    );
}

/// A signature is at distance zero from itself.
pub proof fn lemma_distance_self_zero(a: RegionSignature)
    ensures
        sig_dist(a, a) == 0,
{
    lemma_dist_sum_self_zero(arranged(a.lengths@, a.dominant.0 as int), 360);
}

/// The four-fold energy of one degree, exact in `u128`.
fn total_of(lengths: &Vec<u64>, d: usize) -> (t: u128)
    requires
        lengths@.len() == 360,
        d < 360,
    ensures
        t == total_at(lengths@, d as int),
{
    lengths[d] as u128 + lengths[(d + 90) % 360] as u128 + lengths[(d + 180) % 360] as u128
        + lengths[(d + 270) % 360] as u128
}

/// The first degree with the lexicographically largest (four-fold energy,
/// bucket value) pair, and that bucket value.
fn dominant_of(lengths: &Vec<u64>) -> (r: (usize, u64))
    requires
        lengths@.len() == 360,
    ensures
        r.0 < 360,
        r.0 == dominant_degree(lengths@),
        r.1 == lengths@[r.0 as int],
{
    let mut best: usize = 0;
    let mut d: usize = 1;
    while d < 360
        invariant
            lengths@.len() == 360,
            1 <= d <= 360,
            best < d,
            best == dominant_upto(lengths@, d as int),
        decreases 360 - d,
    {
        let t_cand = total_of(lengths, d);
        let t_best = total_of(lengths, best);
        if t_cand > t_best || (t_cand == t_best && lengths[d] > lengths[best]) {
            best = d;
        }
        d = d + 1;
    }
    (best, lengths[best])
}

impl RegionSignature {
    /// Assembles a signature from its raw buckets, deriving the dominant
    /// degree from them.
    pub fn new(
        id: String,
        group_name: String,
        centroid: Coordinate,
        bucket_width_milli: u32,
        lengths: Vec<u64>,
    ) -> (s: RegionSignature)
        requires
            lengths@.len() == 360,
        ensures
            s.id == id,
            s.group_name == group_name,
            s.centroid == centroid,
            s.bucket_width_milli == bucket_width_milli,
            s.lengths@ == lengths@,
            s.dominant.0 == dominant_degree(lengths@),
            s.dominant.1 == lengths@[dominant_degree(lengths@)],
            sig_wf(s) <==> (forall|i: int| 0 <= i < 360 ==> lengths@[i] <= SCALE),
    {
        let dominant = dominant_of(&lengths);
        RegionSignature { id, group_name, centroid, bucket_width_milli, lengths, dominant }
    }

    /// The buckets read starting from this signature's own dominant degree:
    /// the canonical, rotation-independent view used for comparison.
    pub fn arrange_lengths_by_dominant_degree(&self) -> (r: Vec<u64>)
        requires
            self.lengths@.len() == 360,
            self.dominant.0 < 360,
        ensures
            r@ == arranged(self.lengths@, self.dominant.0 as int),
    {
        let offset = self.dominant.0;
        let mut arr: Vec<u64> = Vec::new();
        let mut k: usize = 0;
        while k < 360
            invariant
                self.lengths@.len() == 360,
                offset == self.dominant.0,
                offset < 360,
                k <= 360,
                arr@.len() == k,
                forall|j: int| 0 <= j < k ==> arr@[j] == self.lengths@[(offset + j) % 360],
            decreases 360 - k,
        {
            arr.push(self.lengths[(offset + k) % 360]);
            k = k + 1;
        }
        proof {
            assert(arr@ =~= arranged(self.lengths@, self.dominant.0 as int));
        }
        arr
    }

    /// The summed absolute bucket difference between the self-aligned views,
    /// in units of `1/(360*SCALE)`.
    pub(crate) fn distance_total(&self, other: &RegionSignature) -> (r: u64)
        requires
            sig_bounds(*self),
            sig_bounds(*other),
        ensures
            r == sig_dist(*self, *other),
            r <= 360 * SCALE,
    {
        let a = self.arrange_lengths_by_dominant_degree();
        let b = other.arrange_lengths_by_dominant_degree();
        let mut total: u64 = 0;
        let mut k: usize = 0;
        while k < 360
            invariant
                a@ == arranged(self.lengths@, self.dominant.0 as int),
                b@ == arranged(other.lengths@, other.dominant.0 as int),
                sig_bounds(*self),
                sig_bounds(*other),
                k <= 360,
                total == dist_sum(a@, b@, k as int),
                total <= k * 1_000_000,
            decreases 360 - k,
        {
            let x = a[k];
            let y = b[k];
            let diff = if x >= y {
                x - y
            } else {
                y - x
            };
            assert(x <= SCALE && y <= SCALE);
            total = total + diff;
            k = k + 1;
        }
        total
    }

    /// The average absolute bucket difference between the self-aligned views
    /// of the two signatures, in millionths: 0 means the aligned buckets
    /// coincide, `SCALE` is the largest possible disagreement.
    pub fn distance_from(&self, other: &RegionSignature) -> (r: u64)
        requires
            sig_bounds(*self),
            sig_bounds(*other),
        ensures
            r == sig_dist(*self, *other) / 360,
            r <= SCALE,
    {
        let total = self.distance_total(other);
        total / 360
    }
}

} // verus!
