use vstd::prelude::*;
use vstd::arithmetic::div_mod::{lemma_div_is_ordered, lemma_div_multiples_vanish};
use vstd::arithmetic::mul::lemma_mul_inequality;

use crate::geom::Coordinate;
use crate::signature::{abs_diff, dominant_degree, sig_wf, RegionSignature, SCALE};

verus! {

/// The largest radial distance the builder accepts, so that scaling a
/// distance by `SCALE` stays inside `u64`.
pub const DISTANCE_LIMIT: u64 = 18_000_000_000_000;

/// One boundary sample seen from the centroid: the bearing towards it in
/// milli-degrees (a bearing of 1.5 degrees is 1500) and the distance to it,
/// in any fixed unit of length.
#[derive(Clone, Copy, PartialEq, Eq, Structural, Debug)]
pub struct RadialSample {
    pub bearing_milli: u32,
    pub distance: u64,
}

/// The radial samples of one polygon: one sample per original vertex in ring
/// order, and any number of interpolated fill-in samples taken along the
/// edges.
pub struct SampledRing {
    pub vertex_samples: Vec<RadialSample>,
    pub edge_samples: Vec<RadialSample>,
}

/// Why a signature could not be built.
#[derive(Clone, Copy, PartialEq, Eq, Structural, Debug)]
pub enum SignatureError {
    /// The polygon supplied no vertices at all.
    MalformedPolygon,
    /// Every vertex coincides with the centroid, so no radial length can be
    /// normalized.
    DegenerateGeometry,
}

pub open spec fn sample_wf(s: RadialSample) -> bool {
    &&& s.bearing_milli < 360_000
    &&& s.distance <= DISTANCE_LIMIT
}

pub open spec fn samples_wf(samples: Seq<RadialSample>) -> bool {
    forall|i: int| 0 <= i < samples.len() ==> sample_wf(#[trigger] samples[i])
}

/// The largest distance among the first `n` samples.
pub open spec fn max_dist(samples: Seq<RadialSample>, n: int) -> int
    decreases n,
{
    if n <= 0 {
        0
    } else {
        let m = max_dist(samples, n - 1);
        if samples[n - 1].distance > m {
            samples[n - 1].distance as int
        } else {
            m
        }
    }
}

proof fn lemma_max_dist_props(samples: Seq<RadialSample>, n: int)
    requires
        n <= samples.len(),
    ensures
        max_dist(samples, n) >= 0,
        forall|i: int| 0 <= i < n ==> #[trigger] samples[i].distance <= max_dist(samples, n),
        n > 0 ==> exists|i: int| 0 <= i < n && #[trigger] samples[i].distance == max_dist(
            samples,
            n,
        ),
    decreases n,
{
    if n > 0 {
        lemma_max_dist_props(samples, n - 1);
    }
}

/// A well-formed sampling: every sample in range, and no interpolated sample
/// reaching farther than the farthest original vertex.
pub open spec fn sampled_wf(ring: SampledRing) -> bool {
    &&& samples_wf(ring.vertex_samples@)
    &&& samples_wf(ring.edge_samples@)
    &&& forall|i: int|
        0 <= i < ring.edge_samples@.len() ==> #[trigger] ring.edge_samples@[i].distance <= max_dist(
            ring.vertex_samples@,
            ring.vertex_samples@.len() as int,
        )
}

/// A sampling from which a signature exists: at least one vertex, and a
/// positive farthest distance.
pub open spec fn sampled_ok(ring: SampledRing) -> bool {
    &&& ring.vertex_samples@.len() > 0
    &&& max_dist(ring.vertex_samples@, ring.vertex_samples@.len() as int) > 0
}

/// The degree bucket a sample falls into.
pub open spec fn degree_of(s: RadialSample) -> int {
    s.bearing_milli as int / 1000
}

/// A distance normalized against the farthest vertex distance, in
/// millionths.
pub open spec fn norm_spec(d: int, m: int) -> int {
    d * (SCALE as int) / m
}

/// The value of bucket `deg`: the largest normalized distance among the
/// samples whose bearing floors to `deg`, or zero if none does.
pub open spec fn bucket_at(samples: Seq<RadialSample>, m: int, deg: int) -> int
    decreases samples.len(),
{
    if samples.len() == 0 {
        0
    } else {
        let rest = bucket_at(samples.drop_last(), m, deg);
        let s = samples.last();
        if degree_of(s) == deg && norm_spec(s.distance as int, m) > rest {
            norm_spec(s.distance as int, m)
        } else {
            rest
        }
    }
}

/// The 360 buckets that a full set of samples fills.
pub open spec fn sig_lengths_spec(samples: Seq<RadialSample>, m: int) -> Seq<u64> {
    Seq::new(360, |d: int| bucket_at(samples, m, d) as u64)
}

proof fn lemma_norm_le_scale(d: int, m: int)
    requires
        0 < m,
        0 <= d <= m,
    ensures
        0 <= norm_spec(d, m) <= SCALE,
{
    lemma_mul_inequality(d, m, SCALE as int);
    lemma_div_is_ordered(d * (SCALE as int), m * (SCALE as int), m);
    lemma_div_multiples_vanish(SCALE as int, m);
    vstd::arithmetic::div_mod::lemma_div_pos_is_pos(d * (SCALE as int), m);
    vstd::arithmetic::mul::lemma_mul_nonnegative(d, SCALE as int);
}

proof fn lemma_bucket_at_bounds(samples: Seq<RadialSample>, m: int, deg: int)
    requires
        0 < m,
        forall|i: int| 0 <= i < samples.len() ==> #[trigger] samples[i].distance <= m,
    ensures
        0 <= bucket_at(samples, m, deg) <= SCALE,
    decreases samples.len(),
{
    if samples.len() > 0 {
        lemma_bucket_at_bounds(samples.drop_last(), m, deg);
        let s = samples.last();
        assert(s == samples[samples.len() - 1]);
        lemma_norm_le_scale(s.distance as int, m);
    }
}

proof fn lemma_bucket_at_ge_member(samples: Seq<RadialSample>, m: int, i: int)
    requires
        0 <= i < samples.len(),
    ensures
        bucket_at(samples, m, degree_of(samples[i])) >= norm_spec(samples[i].distance as int, m),
    decreases samples.len(),
{
    if i < samples.len() - 1 {
        lemma_bucket_at_ge_member(samples.drop_last(), m, i);
        assert(samples.drop_last()[i] == samples[i]);
    } else {
        assert(samples.last() == samples[i]);
    }
}

/// Builds the signature of one region from its radial samples: distances are
/// normalized against the farthest original vertex, each sample raises the
/// bucket its bearing floors into, and untouched buckets stay zero.
pub fn build_signature(
    id: String,
    group_name: String,
    centroid: Coordinate,
    bucket_width_milli: u32,
    ring: &SampledRing,
) -> (r: Result<RegionSignature, SignatureError>)
    requires
        sampled_wf(*ring),
    ensures
        ring.vertex_samples@.len() == 0 ==> r == Result::<RegionSignature, SignatureError>::Err(
            SignatureError::MalformedPolygon,
        ),
        ring.vertex_samples@.len() > 0 && max_dist(
            ring.vertex_samples@,
            ring.vertex_samples@.len() as int,
        ) == 0 ==> r == Result::<RegionSignature, SignatureError>::Err(
            SignatureError::DegenerateGeometry,
        ),
        sampled_ok(*ring) ==> {
            &&& r matches Ok(sig)
            &&& sig.id == id
            &&& sig.group_name == group_name
            &&& sig.centroid == centroid
            &&& sig.bucket_width_milli == bucket_width_milli
            &&& sig.lengths@ == sig_lengths_spec(
                ring.edge_samples@ + ring.vertex_samples@,
                max_dist(ring.vertex_samples@, ring.vertex_samples@.len() as int),
            )
            &&& sig.dominant.0 == dominant_degree(sig.lengths@)
            &&& sig.dominant.1 == sig.lengths@[dominant_degree(sig.lengths@)]
            &&& sig_wf(sig)
            &&& exists|d: int| 0 <= d < 360 && #[trigger] sig.lengths@[d] == SCALE
        },
{
    let nv = ring.vertex_samples.len();
    if nv == 0 {
        return Err(SignatureError::MalformedPolygon);
    }
    // The farthest original vertex fixes the normalization.
    let mut m: u64 = 0;
    let mut i: usize = 0;
    while i < nv
        invariant
            nv == ring.vertex_samples@.len(),
            i <= nv,
            m == max_dist(ring.vertex_samples@, i as int),
        decreases nv - i,
    {
        let d = ring.vertex_samples[i].distance;
        if d > m {
            m = d;
        }
        i = i + 1;
    }
    proof {
        lemma_max_dist_props(ring.vertex_samples@, nv as int);
    }
    if m == 0 {
        return Err(SignatureError::DegenerateGeometry);
    }
    let ghost all = ring.edge_samples@ + ring.vertex_samples@;
    proof {
        assert(forall|k: int| 0 <= k < all.len() ==> sample_wf(#[trigger] all[k]) && all[k].distance
            <= m) by {
            assert(forall|k: int|
                0 <= k < ring.edge_samples@.len() ==> #[trigger] all[k] == ring.edge_samples@[k]);
            assert(forall|k: int|
                ring.edge_samples@.len() <= k < all.len() ==> #[trigger] all[k]
                    == ring.vertex_samples@[k - ring.edge_samples@.len()]);
        }
    }
    let mut lengths: Vec<u64> = Vec::new();
    let mut d: usize = 0;
    while d < 360
        invariant
            d <= 360,
            lengths@.len() == d,
            forall|k: int| 0 <= k < d ==> lengths@[k] == 0,
        decreases 360 - d,
    {
        lengths.push(0);
        d = d + 1;
    }
    proof {
        assert(all.take(0) =~= Seq::<RadialSample>::empty());
        assert(forall|k: int| 0 <= k < 360 ==> lengths@[k] == bucket_at(all.take(0), m as int, k));
    }
    let ne = ring.edge_samples.len();
    let mut i: usize = 0;
    while i < ne
        invariant
            sampled_wf(*ring),
            ne == ring.edge_samples@.len(),
            all == ring.edge_samples@ + ring.vertex_samples@,
            forall|k: int| 0 <= k < all.len() ==> sample_wf(#[trigger] all[k]),
            0 < m <= DISTANCE_LIMIT,
            i <= ne,
            lengths@.len() == 360,
            forall|k: int|
                0 <= k < 360 ==> lengths@[k] == bucket_at(all.take(i as int), m as int, k),
        decreases ne - i,
    {
        let s = ring.edge_samples[i];
        proof {
            assert(all[i as int] == s);
            assert(all.take(i + 1).drop_last() =~= all.take(i as int));
            assert(all.take(i + 1).last() == s);
        }
        let deg = (s.bearing_milli / 1000) as usize;
        let norm = s.distance * SCALE / m;
        if norm > lengths[deg] {
            lengths.set(deg, norm);
        }
        i = i + 1;
    }
    let mut i: usize = 0;
    while i < nv
        invariant
            sampled_wf(*ring),
            nv == ring.vertex_samples@.len(),
            ne == ring.edge_samples@.len(),
            all == ring.edge_samples@ + ring.vertex_samples@,
            forall|k: int| 0 <= k < all.len() ==> sample_wf(#[trigger] all[k]),
            0 < m <= DISTANCE_LIMIT,
            i <= nv,
            lengths@.len() == 360,
            forall|k: int|
                0 <= k < 360 ==> lengths@[k] == bucket_at(all.take(ne + i as int), m as int, k),
        decreases nv - i,
    {
        let s = ring.vertex_samples[i];
        proof {
            assert(all[ne + i as int] == s);
            assert(all.take(ne + i + 1).drop_last() =~= all.take(ne + i as int));
            assert(all.take(ne + i + 1).last() == s);
        }
        let deg = (s.bearing_milli / 1000) as usize;
        let norm = s.distance * SCALE / m;
        if norm > lengths[deg] {
            lengths.set(deg, norm);
        }
        i = i + 1;
    }
    proof {
        assert(all.take(all.len() as int) =~= all);
        assert(forall|k: int| 0 <= k < 360 ==> lengths@[k] == bucket_at(all, m as int, k));
        assert(lengths@ =~= sig_lengths_spec(all, m as int));
        // Every bucket is a fraction: no sample reaches past the farthest
        // vertex.
        assert forall|k: int| 0 <= k < 360 implies lengths@[k] <= SCALE by {
            lemma_bucket_at_bounds(all, m as int, k);
        }
        // The farthest vertex's own bucket holds exactly SCALE.
        let vi = choose|i: int|
            0 <= i < nv && #[trigger] ring.vertex_samples@[i].distance == max_dist(
                ring.vertex_samples@,
                nv as int,
            );
        assert(all[ne + vi] == ring.vertex_samples@[vi]);
        lemma_bucket_at_ge_member(all, m as int, ne + vi);
        lemma_div_multiples_vanish(SCALE as int, m as int);
        lemma_bucket_at_bounds(all, m as int, degree_of(all[ne + vi]));
        assert(lengths@[degree_of(all[ne + vi])] == SCALE);
    }
    let sig = RegionSignature::new(id, group_name, centroid, bucket_width_milli, lengths);
    Ok(sig)
}

/// How many fill-in samples each edge needs: none when the bearings of an
/// edge's two endpoints lie within half a degree of each other, otherwise
/// one sample per started half degree of bearing difference.
pub open spec fn interp_count_spec(bearings: Seq<u32>, i: int) -> int {
    let n = bearings.len() as int;
    let prev = bearings[(i + n - 1) % n];
    let d = abs_diff(bearings[i] as int, prev as int);
    if d >= 500 {
        (d + 499) / 500
    } else {
        0
    }
}

/// For each vertex of a ring of bearings, the number of samples to
/// interpolate evenly along the edge arriving from the previous vertex.
/// Sample `j` of `count` is taken at ratio `j / count` along that edge.
pub fn interpolation_counts(bearings: &Vec<u32>) -> (r: Vec<usize>)
    requires
        forall|i: int| 0 <= i < bearings@.len() ==> #[trigger] bearings@[i] < 360_000,
    ensures
        r@.len() == bearings@.len(),
        forall|i: int| 0 <= i < r@.len() ==> #[trigger] r@[i] == interp_count_spec(bearings@, i),
{
    let n = bearings.len();
    let mut r: Vec<usize> = Vec::new();
    if n == 0 {
        return r;
    }
    let mut i: usize = 0;
    while i < n
        invariant
            n == bearings@.len(),
            0 < n,
            forall|k: int| 0 <= k < n ==> #[trigger] bearings@[k] < 360_000,
            i <= n,
            r@.len() == i,
            forall|k: int| 0 <= k < i ==> #[trigger] r@[k] == interp_count_spec(bearings@, k),
        decreases n - i,
    {
        let prev_idx: usize = if i == 0 {
            n - 1
        } else {
            i - 1
        };
        proof {
            assert(prev_idx == (i + n - 1) % (n as int)) by (nonlinear_arith)
                requires
                    0 <= i < n,
                    prev_idx == if i == 0 { (n - 1) as int } else { (i - 1) as int },
            ;
        }
        let b = bearings[i];
        let p = bearings[prev_idx];
        let diff: u32 = if b >= p {
            b - p
        } else {
            p - b
        };
        let count: usize = if diff >= 500 {
            ((diff + 499) / 500) as usize
        } else {
            0
        };
        r.push(count);
        i = i + 1;
    }
    r
}

} // verus!
