use vstd::prelude::*;

use crate::builder::{
    build_signature, max_dist, sampled_ok, sampled_wf, sig_lengths_spec, SampledRing,
    SignatureError,
};
use crate::geom::{copy_coords, Coordinate, Geometry, Polygon, Ray};
use crate::region_group::RegionGroup;
use crate::signature::{
    arranged, sig_bounds, sig_dist, sig_like, sig_wf, RegionSignature, SCALE,
};

verus! {

/// The regions of the first `g` groups, flattened in group order.
pub open spec fn flat_upto(groups: Seq<RegionGroup>, g: int) -> Seq<
    (Polygon, String, Coordinate),
>
    decreases g,
{
    if g <= 0 {
        Seq::empty()
    } else {
        flat_upto(groups, g - 1) + groups[g - 1].geometries@
    }
}

/// All regions of a catalog, flattened in group order.
pub open spec fn flat_regions(groups: Seq<RegionGroup>) -> Seq<(Polygon, String, Coordinate)> {
    flat_upto(groups, groups.len() as int)
}

proof fn lemma_flat_upto_prefix(groups: Seq<RegionGroup>, g1: int, g2: int)
    requires
        0 <= g1 <= g2,
    ensures
        flat_upto(groups, g1).len() <= flat_upto(groups, g2).len(),
        forall|i: int|
            0 <= i < flat_upto(groups, g1).len() ==> #[trigger] flat_upto(groups, g2)[i]
                == flat_upto(groups, g1)[i],
    decreases g2 - g1,
{
    if g1 < g2 {
        lemma_flat_upto_prefix(groups, g1, g2 - 1);
        assert forall|i: int| 0 <= i < flat_upto(groups, g1).len() implies #[trigger] flat_upto(
            groups,
            g2,
        )[i] == flat_upto(groups, g1)[i] by {
            assert(flat_upto(groups, g2) == flat_upto(groups, g2 - 1) + groups[g2 - 1].geometries@);
            assert((flat_upto(groups, g2 - 1) + groups[g2 - 1].geometries@)[i] == flat_upto(
                groups,
                g2 - 1,
            )[i]);
        }
    }
}

/// The sample rings supplied for a catalog: one vector of rings per group,
/// one ring per region, each well formed.
pub open spec fn rings_wf(groups: Seq<RegionGroup>, rings: Seq<Vec<SampledRing>>) -> bool {
    &&& rings.len() == groups.len()
    &&& forall|g: int| 0 <= g < groups.len() ==> #[trigger] rings[g]@.len()
        == groups[g].geometries@.len()
    &&& forall|g: int, k: int|
        0 <= g < groups.len() && 0 <= k < groups[g].geometries@.len() ==> sampled_wf(
            #[trigger] rings[g]@[k],
        )
}

/// Every region's sampling admits a signature: at least one vertex sample
/// and a positive farthest distance.
pub open spec fn all_rings_ok(groups: Seq<RegionGroup>, rings: Seq<Vec<SampledRing>>) -> bool {
    forall|g: int, k: int|
        0 <= g < groups.len() && 0 <= k < groups[g].geometries@.len() ==> sampled_ok(
            #[trigger] rings[g]@[k],
        )
}

/// `sig` is the signature that region (`id`, `gname`, `centroid`) with
/// samples `ring` determines.
pub open spec fn sig_matches(
    sig: RegionSignature,
    id: String,
    gname: String,
    centroid: Coordinate,
    ring: SampledRing,
) -> bool {
    &&& sig.id == id
    &&& sig.group_name == gname
    &&& sig.centroid == centroid
    &&& sig.bucket_width_milli == 1000
    &&& sig.lengths@ == sig_lengths_spec(
        ring.edge_samples@ + ring.vertex_samples@,
        max_dist(ring.vertex_samples@, ring.vertex_samples@.len() as int),
    )
    &&& sig_wf(sig)
}

/// The signature list carries, in flattened catalog order, the signature of
/// every region.
pub open spec fn signatures_match(
    groups: Seq<RegionGroup>,
    rings: Seq<Vec<SampledRing>>,
    sigs: Seq<RegionSignature>,
) -> bool {
    &&& sigs.len() == flat_regions(groups).len()
    &&& forall|g: int, k: int|
        0 <= g < groups.len() && 0 <= k < groups[g].geometries@.len() ==> sig_matches(
            #[trigger] sigs[flat_upto(groups, g).len() + k],
            groups[g].geometries@[k].1,
            groups[g].name,
            groups[g].geometries@[k].2,
            rings[g]@[k],
        )
}

/// Builds one signature per region of the catalog, in flattened order, from
/// the radial samples supplied alongside: each region's buckets are filled
/// and normalized as `build_signature` does. The first region whose samples
/// admit no signature stops the build with that region's error.
pub fn signatures(groups: &Vec<RegionGroup>, rings: &Vec<Vec<SampledRing>>) -> (r: Result<
    Vec<RegionSignature>,
    SignatureError,
>)
    requires
        rings_wf(groups@, rings@),
    ensures
        r is Ok <==> all_rings_ok(groups@, rings@),
        r matches Ok(sigs) ==> signatures_match(groups@, rings@, sigs@),
{
    let mut out: Vec<RegionSignature> = Vec::new();
    let ng = groups.len();
    let mut g: usize = 0;
    while g < ng
        invariant
            rings_wf(groups@, rings@),
            ng == groups@.len(),
            g <= ng,
            out@.len() == flat_upto(groups@, g as int).len(),
            forall|h: int, k: int|
                0 <= h < g && 0 <= k < groups@[h].geometries@.len() ==> sig_matches(
                    #[trigger] out@[flat_upto(groups@, h).len() + k],
                    groups@[h].geometries@[k].1,
                    groups@[h].name,
                    groups@[h].geometries@[k].2,
                    rings@[h]@[k],
                ),
            forall|h: int, k: int|
                0 <= h < g && 0 <= k < groups@[h].geometries@.len() ==> sampled_ok(
                    #[trigger] rings@[h]@[k],
                ),
        decreases ng - g,
    {
        let group = &groups[g];
        let nk = group.geometries.len();
        let mut k: usize = 0;
        while k < nk
            invariant
                rings_wf(groups@, rings@),
                ng == groups@.len(),
                g < ng,
                group == groups@[g as int],
                nk == group.geometries@.len(),
                k <= nk,
                out@.len() == flat_upto(groups@, g as int).len() + k,
                forall|h: int, k2: int|
                    0 <= h < g && 0 <= k2 < groups@[h].geometries@.len() ==> sig_matches(
                        #[trigger] out@[flat_upto(groups@, h).len() + k2],
                        groups@[h].geometries@[k2].1,
                        groups@[h].name,
                        groups@[h].geometries@[k2].2,
                        rings@[h]@[k2],
                    ),
                forall|k2: int|
                    0 <= k2 < k ==> sig_matches(
                        #[trigger] out@[flat_upto(groups@, g as int).len() + k2],
                        groups@[g as int].geometries@[k2].1,
                        groups@[g as int].name,
                        groups@[g as int].geometries@[k2].2,
                        rings@[g as int]@[k2],
                    ),
                forall|h: int, k2: int|
                    0 <= h < g && 0 <= k2 < groups@[h].geometries@.len() ==> sampled_ok(
                        #[trigger] rings@[h]@[k2],
                    ),
                forall|k2: int| 0 <= k2 < k ==> sampled_ok(#[trigger] rings@[g as int]@[k2]),
            decreases nk - k,
        {
            let entry = &group.geometries[k];
            let id = entry.1.clone();
            let gname = group.name.clone();
            let ring = &rings[g][k];
            let ghost prev = out@;
            match build_signature(id, gname, entry.2, 1000, ring) {
                Ok(sig) => {
                    out.push(sig);
                    proof {
                        assert(!(ring.vertex_samples@.len() == 0) && !(max_dist(
                            ring.vertex_samples@,
                            ring.vertex_samples@.len() as int,
                        ) == 0)) by {
                            lemma_max_dist_nonneg(ring.vertex_samples@);
                        }
                        assert(sampled_ok(rings@[g as int]@[k as int]));
                        assert forall|i: int| 0 <= i < prev.len() implies #[trigger] out@[i]
                            == prev[i] by {
                            assert(prev.push(sig)[i] == prev[i]);
                        }
                        assert forall|h: int, k2: int|
                            0 <= h < g && 0 <= k2 < groups@[h].geometries@.len() implies sig_matches(
                            #[trigger] out@[flat_upto(groups@, h).len() + k2],
                            groups@[h].geometries@[k2].1,
                            groups@[h].name,
                            groups@[h].geometries@[k2].2,
                            rings@[h]@[k2],
                        ) by {
                            assert(flat_upto(groups@, h + 1) == flat_upto(groups@, h)
                                + groups@[h].geometries@);
                            lemma_flat_upto_prefix(groups@, h + 1, g as int);
                            assert(flat_upto(groups@, h).len() + k2 < prev.len());
                            assert(out@[flat_upto(groups@, h).len() + k2] == prev[flat_upto(
                                groups@,
                                h,
                            ).len() + k2]);
                        }
                    }
                },
                Err(e) => {
                    proof {
                        assert(!sampled_ok(rings@[g as int]@[k as int]));
                    }
                    return Err(e);
                },
            }
            k = k + 1;
        }
        proof {
            assert(flat_upto(groups@, g + 1) == flat_upto(groups@, g as int)
                + groups@[g as int].geometries@);
        }
        g = g + 1;
    }
    proof {
        assert(out@.len() == flat_regions(groups@).len());
    }
    Ok(out)
}

/// A catalog of region groups annotated with one signature per region, in
/// flattened group order. Built once; queries never change it.
pub struct Annotated {
    pub groups: Vec<RegionGroup>,
    pub signatures: Vec<RegionSignature>,
}

impl Annotated {
    /// Annotates a catalog: builds the signature of every region from the
    /// radial samples supplied alongside the groups.
    pub fn new(groups: Vec<RegionGroup>, rings: &Vec<Vec<SampledRing>>) -> (r: Result<
        Annotated,
        SignatureError,
    >)
        requires
            rings_wf(groups@, rings@),
        ensures
            r is Ok <==> all_rings_ok(groups@, rings@),
            r matches Ok(a) ==> a.groups == groups && signatures_match(
                groups@,
                rings@,
                a.signatures@,
            ),
    {
        match signatures(&groups, rings) {
            Ok(sigs) => Ok(Annotated { groups, signatures: sigs }),
            Err(e) => Err(e),
        }
    }

    /// One point geometry per region: its centroid, in flattened catalog
    /// order.
    pub fn centroids_geometry(&self) -> (r: Vec<Geometry>)
        ensures
            r@.len() == flat_regions(self.groups@).len(),
            forall|i: int|
                0 <= i < r@.len() ==> #[trigger] r@[i] == Geometry::Point(
                    flat_regions(self.groups@)[i].2,
                ),
    {
        let mut out: Vec<Geometry> = Vec::new();
        let ng = self.groups.len();
        let mut g: usize = 0;
        while g < ng
            invariant
                ng == self.groups@.len(),
                g <= ng,
                out@.len() == flat_upto(self.groups@, g as int).len(),
                forall|i: int|
                    0 <= i < out@.len() ==> #[trigger] out@[i] == Geometry::Point(
                        flat_regions(self.groups@)[i].2,
                    ),
            decreases ng - g,
        {
            let group = &self.groups[g];
            let nk = group.geometries.len();
            let mut k: usize = 0;
            while k < nk
                invariant
                    ng == self.groups@.len(),
                    g < ng,
                    group == self.groups@[g as int],
                    nk == group.geometries@.len(),
                    k <= nk,
                    out@.len() == flat_upto(self.groups@, g as int).len() + k,
                    forall|i: int|
                        0 <= i < out@.len() ==> #[trigger] out@[i] == Geometry::Point(
                            flat_regions(self.groups@)[i].2,
                        ),
                decreases nk - k,
            {
                let ghost prev = out@;
                out.push(Geometry::Point(group.geometries[k].2));
                proof {
                    lemma_flat_entry(self.groups@, g as int, k as int);
                    assert forall|i: int| 0 <= i < out@.len() implies #[trigger] out@[i]
                        == Geometry::Point(flat_regions(self.groups@)[i].2) by {
                        if i < prev.len() {
                            assert(prev.push(Geometry::Point(group.geometries@[k as int].2))[i]
                                == prev[i]);
                        }
                    }
                }
                k = k + 1;
            }
            proof {
                assert(flat_upto(self.groups@, g + 1) == flat_upto(self.groups@, g as int)
                    + self.groups@[g as int].geometries@);
            }
            g = g + 1;
        }
        out
    }

    /// One polygon geometry per region, in flattened catalog order.
    pub fn regions_geometry(&self) -> (r: Vec<Geometry>)
        ensures
            r@.len() == flat_regions(self.groups@).len(),
            forall|i: int|
                0 <= i < r@.len() ==> {
                    &&& (#[trigger] r@[i]) matches Geometry::Polygon(p)
                    &&& p.exterior@ == flat_regions(self.groups@)[i].0.exterior@
                },
    {
        let mut out: Vec<Geometry> = Vec::new();
        let ng = self.groups.len();
        let mut g: usize = 0;
        while g < ng
            invariant
                ng == self.groups@.len(),
                g <= ng,
                out@.len() == flat_upto(self.groups@, g as int).len(),
                forall|i: int|
                    0 <= i < out@.len() ==> {
                        &&& (#[trigger] out@[i]) matches Geometry::Polygon(p)
                        &&& p.exterior@ == flat_regions(self.groups@)[i].0.exterior@
                    },
            decreases ng - g,
        {
            let group = &self.groups[g];
            let nk = group.geometries.len();
            let mut k: usize = 0;
            while k < nk
                invariant
                    ng == self.groups@.len(),
                    g < ng,
                    group == self.groups@[g as int],
                    nk == group.geometries@.len(),
                    k <= nk,
                    out@.len() == flat_upto(self.groups@, g as int).len() + k,
                    forall|i: int|
                        0 <= i < out@.len() ==> {
                            &&& (#[trigger] out@[i]) matches Geometry::Polygon(p)
                            &&& p.exterior@ == flat_regions(self.groups@)[i].0.exterior@
                        },
                decreases nk - k,
            {
                let ghost prev = out@;
                let ring = copy_coords(&group.geometries[k].0.exterior);
                let poly = Geometry::Polygon(Polygon::new(ring));
                out.push(poly);
                proof {
                    lemma_flat_entry(self.groups@, g as int, k as int);
                    assert forall|i: int| 0 <= i < out@.len() implies {
                        &&& (#[trigger] out@[i]) matches Geometry::Polygon(p)
                        &&& p.exterior@ == flat_regions(self.groups@)[i].0.exterior@
                    } by {
                        if i < prev.len() {
                            assert(out@[i] == prev[i]);
                        } else {
                            assert(out@[i] == prev.push(out@[prev.len() as int])[i]);
                        }
                    }
                }
                k = k + 1;
            }
            proof {
                assert(flat_upto(self.groups@, g + 1) == flat_upto(self.groups@, g as int)
                    + self.groups@[g as int].geometries@);
            }
            g = g + 1;
        }
        out
    }

    /// For each region, the fan of segments from its centroid out to each of
    /// its boundary vertices, in flattened catalog order.
    pub fn rays(&self) -> (r: Vec<Vec<Ray>>)
        ensures
            r@.len() == flat_regions(self.groups@).len(),
            forall|i: int|
                0 <= i < r@.len() ==> {
                    let region = flat_regions(self.groups@)[i];
                    (#[trigger] r@[i])@.len() == region.0.exterior@.len() && forall|v: int|
                        0 <= v < region.0.exterior@.len() ==> #[trigger] r@[i]@[v] == (Ray {
                            start: region.2,
                            end: region.0.exterior@[v],
                        })
                },
    {
        let mut out: Vec<Vec<Ray>> = Vec::new();
        let ng = self.groups.len();
        let mut g: usize = 0;
        while g < ng
            invariant
                ng == self.groups@.len(),
                g <= ng,
                out@.len() == flat_upto(self.groups@, g as int).len(),
                forall|i: int|
                    0 <= i < out@.len() ==> {
                        let region = flat_regions(self.groups@)[i];
                        (#[trigger] out@[i])@.len() == region.0.exterior@.len() && forall|v: int|
                            0 <= v < region.0.exterior@.len() ==> #[trigger] out@[i]@[v] == (Ray {
                                start: region.2,
                                end: region.0.exterior@[v],
                            })
                    },
            decreases ng - g,
        {
            let group = &self.groups[g];
            let nk = group.geometries.len();
            let mut k: usize = 0;
            while k < nk
                invariant
                    ng == self.groups@.len(),
                    g < ng,
                    group == self.groups@[g as int],
                    nk == group.geometries@.len(),
                    k <= nk,
                    out@.len() == flat_upto(self.groups@, g as int).len() + k,
                    forall|i: int|
                        0 <= i < out@.len() ==> {
                            let region = flat_regions(self.groups@)[i];
                            (#[trigger] out@[i])@.len() == region.0.exterior@.len() && forall|
                                v: int,
                            |
                                0 <= v < region.0.exterior@.len() ==> #[trigger] out@[i]@[v] == (
                                Ray { start: region.2, end: region.0.exterior@[v] })
                        },
                decreases nk - k,
            {
                let entry = &group.geometries[k];
                let c = entry.2;
                let nv = entry.0.exterior.len();
                let mut fan: Vec<Ray> = Vec::new();
                let mut v: usize = 0;
                while v < nv
                    invariant
                        nv == entry.0.exterior@.len(),
                        v <= nv,
                        fan@.len() == v,
                        c == entry.2,
                        forall|w: int|
                            0 <= w < v ==> #[trigger] fan@[w] == (Ray {
                                start: entry.2,
                                end: entry.0.exterior@[w],
                            }),
                    decreases nv - v,
                {
                    fan.push(Ray { start: c, end: entry.0.exterior[v] });
                    v = v + 1;
                }
                let ghost prev = out@;
                let ghost fan_view = fan@;
                out.push(fan);
                proof {
                    lemma_flat_entry(self.groups@, g as int, k as int);
                    assert forall|i: int| 0 <= i < out@.len() implies {
                        let region = flat_regions(self.groups@)[i];
                        (#[trigger] out@[i])@.len() == region.0.exterior@.len() && forall|v2: int|
                            0 <= v2 < region.0.exterior@.len() ==> #[trigger] out@[i]@[v2] == (Ray {
                                start: region.2,
                                end: region.0.exterior@[v2],
                            })
                    } by {
                        if i < prev.len() {
                            assert(out@[i] == prev[i]);
                        } else {
                            assert(out@[i] == prev.push(out@[prev.len() as int])[i]);
                            assert(out@[i]@ == fan_view);
                        }
                    }
                }
                k = k + 1;
            }
            proof {
                assert(flat_upto(self.groups@, g + 1) == flat_upto(self.groups@, g as int)
                    + self.groups@[g as int].geometries@);
            }
            g = g + 1;
        }
        out
    }
}

/// Why a similarity query failed.
#[derive(Clone, Copy, PartialEq, Eq, Structural, Debug)]
pub enum SimilarityError {
    /// The requested target id names no signature of the catalog.
    UnknownRegionId,
}

/// One match of a similarity query: a signature of the catalog and its
/// similarity score against the target, in millionths.
pub struct SimilarityResult {
    pub signature: RegionSignature,
    pub score: u64,
}

/// A usable signature catalog: every signature within bounds, no two
/// sharing an id.
pub open spec fn catalog_wf(sigs: Seq<RegionSignature>) -> bool {
    &&& forall|i: int| 0 <= i < sigs.len() ==> sig_bounds(#[trigger] sigs[i])
    &&& forall|i: int, j: int|
        #![trigger sigs[i].id@, sigs[j].id@]
        0 <= i < j < sigs.len() ==> sigs[i].id@ != sigs[j].id@
}

/// The similarity score of `b` against `a`, in millionths: one minus the
/// average aligned bucket difference.
pub open spec fn score_spec(a: RegionSignature, b: RegionSignature) -> int {
    (360 * (SCALE as int) - sig_dist(a, b)) / 360
}

/// Some signature of the catalog carries this id.
pub open spec fn has_id(sigs: Seq<RegionSignature>, id: Seq<char>) -> bool {
    exists|i: int| 0 <= i < sigs.len() && #[trigger] sigs[i].id@ == id
}

/// The index of the signature carrying `id`; with distinct ids, the only
/// one.
pub open spec fn target_index(sigs: Seq<RegionSignature>, id: Seq<char>) -> int {
    choose|i: int| 0 <= i < sigs.len() && #[trigger] sigs[i].id@ == id
}

/// Two sequences with the same multiset have each other's elements.
proof fn lemma_ms_membership(a: Seq<(u64, SimilarityResult)>, b: Seq<(u64, SimilarityResult)>)
    requires
        a.to_multiset() == b.to_multiset(),
    ensures
        forall|i: int| 0 <= i < a.len() ==> b.contains(#[trigger] a[i]),
{
    broadcast use vstd::seq_lib::group_to_multiset_ensures;
    broadcast use vstd::multiset::group_multiset_axioms;

    assert forall|i: int| 0 <= i < a.len() implies b.contains(#[trigger] a[i]) by {
        assert(a.contains(a[i]));
        assert(a.to_multiset().contains(a[i]));
        assert(b.to_multiset().contains(a[i]));
    }
}

/// Reordering a candidate list with pairwise distinct ids keeps the ids
/// pairwise distinct.
proof fn lemma_distinct_ids_preserved(
    pick0: Seq<(u64, SimilarityResult)>,
    sorted: Seq<(u64, SimilarityResult)>,
)
    requires
        sorted.to_multiset() == pick0.to_multiset(),
        forall|k1: int, k2: int|
            #![trigger pick0[k1].1.signature, pick0[k2].1.signature]
            0 <= k1 < k2 < pick0.len() ==> pick0[k1].1.signature.id@ != pick0[k2].1.signature.id@,
    ensures
        forall|k1: int, k2: int|
            #![trigger sorted[k1].1.signature, sorted[k2].1.signature]
            0 <= k1 < k2 < sorted.len() ==> sorted[k1].1.signature.id@
                != sorted[k2].1.signature.id@,
{
    assert forall|k1: int, k2: int| 0 <= k1 < k2 < pick0.len() implies #[trigger] pick0[k1]
        != #[trigger] pick0[k2] by {
        assert(pick0[k1].1.signature.id@ != pick0[k2].1.signature.id@);
    }
    assert(pick0.no_duplicates());
    pick0.lemma_multiset_has_no_duplicates();
    sorted.lemma_multiset_has_no_duplicates_conv();
    lemma_ms_membership(sorted, pick0);
    assert forall|k1: int, k2: int|
        #![trigger sorted[k1].1.signature, sorted[k2].1.signature]
        0 <= k1 < k2 < sorted.len() implies sorted[k1].1.signature.id@
        != sorted[k2].1.signature.id@ by {
        if sorted[k1].1.signature.id@ == sorted[k2].1.signature.id@ {
            assert(pick0.contains(sorted[k1]));
            assert(pick0.contains(sorted[k2]));
            let p1 = choose|p: int| 0 <= p < pick0.len() && pick0[p] == sorted[k1];
            let p2 = choose|p: int| 0 <= p < pick0.len() && pick0[p] == sorted[k2];
            assert(pick0[p1] == sorted[k1]);
            assert(pick0[p2] == sorted[k2]);
            assert(pick0[p1].1.signature.id@ == pick0[p2].1.signature.id@);
            assert(p1 == p2);
            assert(sorted[k1] == sorted[k2]);
        }
    }
}

/// What a successful similarity query returns, for a catalog `sigs` whose
/// target stands at index `ti`: every result copies a non-target signature
/// of the catalog with its score against the target; every result clears
/// the threshold; results come ordered from nearest to farthest; every
/// non-target signature clearing the threshold is represented by its id;
/// and no id appears twice.
pub open spec fn most_similar_post(
    sigs: Seq<RegionSignature>,
    ti: int,
    min_score: u64,
    v: Seq<SimilarityResult>,
) -> bool {
    &&& forall|k: int| 0 <= k < v.len() ==> has_id(sigs, (#[trigger] v[k]).signature.id@)
    &&& forall|k: int|
        0 <= k < v.len() ==> {
            let j = target_index(sigs, (#[trigger] v[k]).signature.id@);
            j != ti && sig_like(v[k].signature, sigs[j]) && v[k].score == score_spec(
                sigs[ti],
                sigs[j],
            )
        }
    &&& forall|k: int| 0 <= k < v.len() ==> (#[trigger] v[k]).score >= min_score
    &&& forall|k1: int, k2: int|
        #![trigger v[k1].signature, v[k2].signature]
        0 <= k1 <= k2 < v.len() ==> sig_dist(sigs[ti], v[k1].signature) <= sig_dist(
            sigs[ti],
            v[k2].signature,
        )
    &&& forall|j: int|
        0 <= j < sigs.len() && j != ti && score_spec(sigs[ti], #[trigger] sigs[j]) >= min_score
            ==> exists|k: int| 0 <= k < v.len() && (#[trigger] v[k]).signature.id@ == sigs[j].id@
    &&& forall|k1: int, k2: int|
        #![trigger v[k1].signature, v[k2].signature]
        0 <= k1 < k2 < v.len() ==> v[k1].signature.id@ != v[k2].signature.id@
}

/// One collected candidate entry: its signature is (a copy of) some
/// non-target catalog signature, its key is the distance to the target, and
/// its score both matches that distance and reaches the threshold.
spec fn cand_entry_ok(
    sv: Seq<RegionSignature>,
    ti: int,
    min_score: u64,
    e: (u64, SimilarityResult),
) -> bool {
    exists|j: int|
        0 <= j < sv.len() && j != ti && sig_like(e.1.signature, sv[j]) && e.0 == sig_dist(
            sv[ti],
            sv[j],
        ) && e.1.score == score_spec(sv[ti], sv[j]) && e.1.score >= min_score
}

/// Every non-target signature whose score reaches the threshold has an entry
/// carrying its id.
spec fn results_complete(
    sv: Seq<RegionSignature>,
    ti: int,
    min_score: u64,
    entries: Seq<(u64, SimilarityResult)>,
) -> bool {
    forall|j: int|
        0 <= j < sv.len() && j != ti && score_spec(sv[ti], #[trigger] sv[j]) >= min_score
            ==> exists|k: int| 0 <= k < entries.len() && entries[k].1.signature.id@ == sv[j].id@
}

/// Selection sort of the scored candidates by their distance key, keeping
/// exactly the same collection of entries.
fn sort_candidates(v: Vec<(u64, SimilarityResult)>) -> (r: Vec<(u64, SimilarityResult)>)
    ensures
        r@.to_multiset() == v@.to_multiset(),
        r@.len() == v@.len(),
        forall|k1: int, k2: int|
            #![trigger r@[k1].0, r@[k2].0]
            0 <= k1 <= k2 < r@.len() ==> r@[k1].0 <= r@[k2].0,
{
    let ghost pick0 = v@;
    let mut rest = v;
    let mut sorted: Vec<(u64, SimilarityResult)> = Vec::new();
    proof {
        broadcast use vstd::seq_lib::group_to_multiset_ensures;
        broadcast use vstd::multiset::group_multiset_axioms;

        assert(sorted@.to_multiset().add(rest@.to_multiset()) =~= pick0.to_multiset());
    }
    while rest.len() > 0
        invariant
            sorted@.to_multiset().add(rest@.to_multiset()) == pick0.to_multiset(),
            sorted@.len() + rest@.len() == pick0.len(),
            forall|k1: int, k2: int|
                #![trigger sorted@[k1].0, sorted@[k2].0]
                0 <= k1 <= k2 < sorted@.len() ==> sorted@[k1].0 <= sorted@[k2].0,
            forall|k: int, w: int|
                #![trigger sorted@[k].0, rest@[w].0]
                0 <= k < sorted@.len() && 0 <= w < rest@.len() ==> sorted@[k].0 <= rest@[w].0,
        decreases rest@.len(),
    {
        let mut mi: usize = 0;
        let mut q: usize = 1;
        while q < rest.len()
            invariant
                rest@.len() > 0,
                mi < rest@.len(),
                q <= rest@.len(),
                forall|w: int| 0 <= w < q ==> (#[trigger] rest@[w].0) >= rest@[mi as int].0,
            decreases rest@.len() - q,
        {
            if rest[q].0 < rest[mi].0 {
                mi = q;
            }
            q = q + 1;
        }
        let ghost restp = rest@;
        let ghost sortedp = sorted@;
        let e = rest.remove(mi);
        sorted.push(e);
        proof {
            broadcast use vstd::seq_lib::group_to_multiset_ensures;
            broadcast use vstd::multiset::group_multiset_axioms;

            restp.remove_ensures(mi as int);
            assert(rest@ == restp.remove(mi as int));
            assert(sorted@ == sortedp.push(e));
            assert(restp.to_multiset().contains(e)) by {
                assert(restp[mi as int] == e);
                assert(restp.contains(e));
            }
            assert(sorted@.to_multiset().add(rest@.to_multiset()) =~= pick0.to_multiset()) by {
                assert(sorted@.to_multiset() =~= sortedp.to_multiset().insert(e));
                assert(rest@.to_multiset() =~= restp.to_multiset().remove(e));
            }
            assert forall|k1: int, k2: int|
                #![trigger sorted@[k1].0, sorted@[k2].0]
                0 <= k1 <= k2 < sorted@.len() implies sorted@[k1].0 <= sorted@[k2].0 by {
                if k2 < sortedp.len() {
                    assert(sorted@[k1] == sortedp[k1] && sorted@[k2] == sortedp[k2]);
                } else {
                    assert(sorted@[k2] == e);
                    if k1 < sortedp.len() {
                        assert(sorted@[k1] == sortedp[k1]);
                        assert(sortedp[k1].0 <= restp[mi as int].0);
                    }
                }
            }
            assert forall|k: int, w: int|
                #![trigger sorted@[k].0, rest@[w].0]
                0 <= k < sorted@.len() && 0 <= w < rest@.len() implies sorted@[k].0 <= rest@[w].0 by {
                let old_w = if w < mi {
                    w
                } else {
                    w + 1
                };
                assert(rest@[w] == restp[old_w]);
                assert(restp[mi as int].0 <= restp[old_w].0);
                if k < sortedp.len() {
                    assert(sorted@[k] == sortedp[k]);
                } else {
                    assert(sorted@[k] == e);
                }
            }
        }
    }
    proof {
        broadcast use vstd::seq_lib::group_to_multiset_ensures;
        broadcast use vstd::multiset::group_multiset_axioms;

        assert(rest@.to_multiset().len() == 0);
        assert(sorted@.to_multiset() =~= pick0.to_multiset());
    }
    sorted
}

/// Signature distance only reads the buckets and the dominant degree, so
/// field-wise equal signatures are interchangeable.
proof fn lemma_sig_dist_congr(a: RegionSignature, b1: RegionSignature, b2: RegionSignature)
    requires
        sig_like(b1, b2),
    ensures
        sig_dist(a, b1) == sig_dist(a, b2),
{
    assert(arranged(b1.lengths@, b1.dominant.0 as int) == arranged(
        b2.lengths@,
        b2.dominant.0 as int,
    ));
}

impl Annotated {
    /// Ranks every other signature of the catalog by shape similarity to the
    /// target: each signature is aligned to its own dominant degree, the
    /// average aligned bucket difference becomes a distance, and the matches
    /// scoring at least `min_score` come back ordered from nearest to
    /// farthest.
    /// Scores every signature other than the target and keeps those whose
    /// score reaches the threshold, each paired with its distance key.
    #[verifier::rlimit(100)]
    fn collect_candidates(sigs: &Vec<RegionSignature>, ti: usize, min_score: u64) -> (picked: Vec<
        (u64, SimilarityResult),
    >)
        requires
            catalog_wf(sigs@),
            ti < sigs@.len(),
        ensures
            forall|k: int|
                0 <= k < picked@.len() ==> cand_entry_ok(
                    sigs@,
                    ti as int,
                    min_score,
                    #[trigger] picked@[k],
                ),
            results_complete(sigs@, ti as int, min_score, picked@),
            forall|k1: int, k2: int|
                #![trigger picked@[k1].1.signature, picked@[k2].1.signature]
                0 <= k1 < k2 < picked@.len() ==> picked@[k1].1.signature.id@
                    != picked@[k2].1.signature.id@,
    {
        let n = sigs.len();
        let target = &sigs[ti];
        let mut picked: Vec<(u64, SimilarityResult)> = Vec::new();
        let mut j: usize = 0;
        while j < n
            invariant
                catalog_wf(sigs@),
                n == sigs@.len(),
                ti < n,
                target == sigs@[ti as int],
                j <= n,
                forall|k: int|
                    0 <= k < picked@.len() ==> exists|j2: int|
                        0 <= j2 < j && j2 != ti && sig_like(
                            (#[trigger] picked@[k]).1.signature,
                            sigs@[j2],
                        ) && picked@[k].0 == sig_dist(sigs@[ti as int], sigs@[j2])
                            && picked@[k].1.score == score_spec(sigs@[ti as int], sigs@[j2])
                            && picked@[k].1.score >= min_score,
                forall|j2: int|
                    0 <= j2 < j && j2 != ti && score_spec(sigs@[ti as int], #[trigger] sigs@[j2])
                        >= min_score ==> exists|k: int|
                        0 <= k < picked@.len() && (#[trigger] picked@[k]).1.signature.id@
                            == sigs@[j2].id@,
                forall|k1: int, k2: int|
                    #![trigger picked@[k1].1.signature, picked@[k2].1.signature]
                    0 <= k1 < k2 < picked@.len() ==> picked@[k1].1.signature.id@
                        != picked@[k2].1.signature.id@,
            decreases n - j,
        {
            if j != ti {
                let dsum = target.distance_total(&sigs[j]);
                let score = (360_000_000 - dsum) / 360;
                proof {
                    assert(score == score_spec(sigs@[ti as int], sigs@[j as int]));
                }
                if score >= min_score {
                    let ghost prevp = picked@;
                    let entry = (dsum, SimilarityResult { signature: sigs[j].clone(), score });
                    picked.push(entry);
                    proof {
                        assert(picked@ == prevp.push(entry));
                        assert forall|q: int| 0 <= q < prevp.len() implies #[trigger] picked@[q]
                            == prevp[q] by {
                            assert(prevp.push(entry)[q] == prevp[q]);
                        }
                        assert(picked@[prevp.len() as int] == entry);
                        assert(sig_like(entry.1.signature, sigs@[j as int]));
                        assert(picked@[prevp.len() as int].1.signature.id@ == sigs@[j as int].id@);
                        assert forall|j2: int|
                            0 <= j2 < j && j2 != ti && score_spec(
                                sigs@[ti as int],
                                #[trigger] sigs@[j2],
                            ) >= min_score implies exists|k: int|
                            0 <= k < picked@.len() && (#[trigger] picked@[k]).1.signature.id@
                                == sigs@[j2].id@ by {
                            let kw = choose|k: int|
                                0 <= k < prevp.len() && (#[trigger] prevp[k]).1.signature.id@
                                    == sigs@[j2].id@;
                            assert(picked@[kw] == prevp[kw]);
                            assert(picked@[kw].1.signature.id@ == sigs@[j2].id@);
                        }
                    }
                }
            }
            j = j + 1;
        }
        proof {
            assert forall|k: int| 0 <= k < picked@.len() implies cand_entry_ok(
                sigs@,
                ti as int,
                min_score,
                #[trigger] picked@[k],
            ) by {
                let j2 = choose|j2: int|
                    0 <= j2 < n && j2 != ti && sig_like(picked@[k].1.signature, sigs@[j2])
                        && picked@[k].0 == sig_dist(sigs@[ti as int], sigs@[j2])
                        && picked@[k].1.score == score_spec(sigs@[ti as int], sigs@[j2])
                        && picked@[k].1.score >= min_score;
                assert(0 <= j2 < sigs@.len() && j2 != ti && sig_like(
                    picked@[k].1.signature,
                    sigs@[j2],
                ) && picked@[k].0 == sig_dist(sigs@[ti as int], sigs@[j2]) && picked@[k].1.score
                    == score_spec(sigs@[ti as int], sigs@[j2]) && picked@[k].1.score >= min_score);
            }
            assert(results_complete(sigs@, ti as int, min_score, picked@)) by {
                assert forall|j2: int|
                    0 <= j2 < sigs@.len() && j2 != ti && score_spec(
                        sigs@[ti as int],
                        #[trigger] sigs@[j2],
                    ) >= min_score implies exists|k: int|
                    0 <= k < picked@.len() && picked@[k].1.signature.id@ == sigs@[j2].id@ by {
                    let kw = choose|k: int|
                        0 <= k < picked@.len() && (#[trigger] picked@[k]).1.signature.id@
                            == sigs@[j2].id@;
                    assert(0 <= kw < picked@.len() && picked@[kw].1.signature.id@
                        == sigs@[j2].id@);
                }
            }
        }
        picked
    }

    #[verifier::rlimit(100)]
    pub fn most_similar_regions(&self, target_id: String, min_score: u64) -> (r: Result<
        Vec<SimilarityResult>,
        SimilarityError,
    >)
        requires
            catalog_wf(self.signatures@),
        ensures
            r is Err <==> !has_id(self.signatures@, target_id@),
            r matches Err(e) ==> e == SimilarityError::UnknownRegionId,
            r matches Ok(v) ==> most_similar_post(
                self.signatures@,
                target_index(self.signatures@, target_id@),
                min_score,
                v@,
            ),
    {
        let sigs = &self.signatures;
        let n = sigs.len();
        let mut found = false;
        let mut ti: usize = 0;
        let mut i: usize = 0;
        while i < n
            invariant
                n == sigs@.len(),
                i <= n,
                !found ==> forall|j: int| 0 <= j < i ==> #[trigger] sigs@[j].id@ != target_id@,
                found ==> ti < n && sigs@[ti as int].id@ == target_id@,
            decreases n - i,
        {
            if !found && sigs[i].id == target_id {
                ti = i;
                found = true;
            }
            i = i + 1;
        }
        if !found {
            return Err(SimilarityError::UnknownRegionId);
        }
        proof {
            assert(has_id(self.signatures@, target_id@));
            let c = target_index(sigs@, target_id@);
            assert(sigs@[c].id@ == target_id@);
            assert(c == ti);
        }
        let picked = Self::collect_candidates(sigs, ti, min_score);
        let ghost pick0 = picked@;
        proof {
            assert forall|k1: int, k2: int| 0 <= k1 < k2 < pick0.len() implies pick0[k1]
                != pick0[k2] by {
                assert(pick0[k1].1.signature.id@ != pick0[k2].1.signature.id@);
            }
            assert(pick0.no_duplicates());
            pick0.lemma_multiset_has_no_duplicates();
        }
        let sorted = sort_candidates(picked);
        let ns = sorted.len();
        let mut out: Vec<SimilarityResult> = Vec::new();
        let mut k: usize = 0;
        while k < ns
            invariant
                ns == sorted@.len(),
                k <= ns,
                out@.len() == k,
                forall|k2: int|
                    0 <= k2 < k ==> sig_like(
                        (#[trigger] out@[k2]).signature,
                        sorted@[k2].1.signature,
                    ) && out@[k2].score == sorted@[k2].1.score,
            decreases ns - k,
        {
            let entry = &sorted[k];
            out.push(SimilarityResult { signature: entry.1.signature.clone(), score: entry.1.score });
            k = k + 1;
        }
        proof {
            let sv = self.signatures@;
            let tii = target_index(sv, target_id@);
            assert(tii == ti);
            lemma_ms_membership(sorted@, pick0);
            lemma_ms_membership(pick0, sorted@);
            lemma_distinct_ids_preserved(pick0, sorted@);
            // Provenance, score threshold, and the key of each result.
            assert forall|k2: int| 0 <= k2 < out@.len() implies (exists|j: int|
                0 <= j < sv.len() && j != tii && sig_like((#[trigger] out@[k2]).signature, sv[j])
                    && out@[k2].score == score_spec(sv[tii], sv[j])) && out@[k2].score >= min_score
                && sig_dist(sv[tii], out@[k2].signature) == sorted@[k2].0 by {
                assert(pick0.contains(sorted@[k2]));
                let pp = choose|pp: int| 0 <= pp < pick0.len() && pick0[pp] == sorted@[k2];
                assert(pick0[pp] == sorted@[k2]);
                assert(cand_entry_ok(sv, ti as int, min_score, pick0[pp]));
                let j = choose|j: int|
                    0 <= j < sv.len() && j != ti && sig_like(pick0[pp].1.signature, sv[j])
                        && pick0[pp].0 == sig_dist(sv[ti as int], sv[j]) && pick0[pp].1.score
                        == score_spec(sv[ti as int], sv[j]) && pick0[pp].1.score >= min_score;
                assert(sig_like(out@[k2].signature, sv[j]));
                lemma_sig_dist_congr(sv[tii], out@[k2].signature, sv[j]);
                assert(sig_dist(sv[tii], out@[k2].signature) == sorted@[k2].0);
            }
            // The clauses of the contract, one by one.
            assert forall|k: int| 0 <= k < out@.len() implies has_id(
                sv,
                (#[trigger] out@[k]).signature.id@,
            ) && {
                let j = target_index(sv, out@[k].signature.id@);
                j != tii && sig_like(out@[k].signature, sv[j]) && out@[k].score == score_spec(
                    sv[tii],
                    sv[j],
                )
            } by {
                let osig = out@[k].signature;
                assert(exists|j: int|
                    0 <= j < sv.len() && j != tii && sig_like(osig, sv[j]) && out@[k].score
                        == score_spec(sv[tii], sv[j]));
                let j = choose|j: int|
                    0 <= j < sv.len() && j != tii && sig_like(osig, sv[j]) && out@[k].score
                        == score_spec(sv[tii], sv[j]);
                assert(sv[j].id@ == out@[k].signature.id@);
                assert(has_id(sv, out@[k].signature.id@));
                let j2 = target_index(sv, out@[k].signature.id@);
                assert(0 <= j2 < sv.len() && sv[j2].id@ == out@[k].signature.id@);
                assert(j2 == j);
            }
            assert forall|k: int| 0 <= k < out@.len() implies (#[trigger] out@[k]).score
                >= min_score by {
                let osig = out@[k].signature;
                assert(sig_dist(sv[tii], osig) == sorted@[k as int].0);
            }
            assert forall|k1: int, k2: int|
                #![trigger out@[k1].signature, out@[k2].signature]
                0 <= k1 <= k2 < out@.len() implies sig_dist(sv[tii], out@[k1].signature)
                <= sig_dist(sv[tii], out@[k2].signature) by {
                assert(sig_dist(sv[tii], out@[k1].signature) == sorted@[k1].0);
                assert(sig_dist(sv[tii], out@[k2].signature) == sorted@[k2].0);
                assert(sorted@[k1].0 <= sorted@[k2].0);
            }
            assert(results_complete(sv, ti as int, min_score, pick0));
            assert forall|j: int|
                0 <= j < sv.len() && j != tii && score_spec(sv[tii], #[trigger] sv[j])
                    >= min_score implies exists|k: int|
                0 <= k < out@.len() && (#[trigger] out@[k]).signature.id@ == sv[j].id@ by {
                assert(score_spec(sv[ti as int], sv[j]) >= min_score);
                let kp = choose|kp: int|
                    0 <= kp < pick0.len() && pick0[kp].1.signature.id@ == sv[j].id@;
                assert(0 <= kp < pick0.len() && pick0[kp].1.signature.id@ == sv[j].id@);
                assert(sorted@.contains(pick0[kp]));
                let k2 = choose|k2: int| 0 <= k2 < sorted@.len() && sorted@[k2] == pick0[kp];
                assert(sorted@[k2] == pick0[kp]);
                assert(out@[k2].signature.id@ == sv[j].id@);
                assert(0 <= k2 < out@.len() && out@[k2].signature.id@ == sv[j].id@);
            }
            assert forall|k1: int, k2: int|
                #![trigger out@[k1].signature, out@[k2].signature]
                0 <= k1 < k2 < out@.len() implies out@[k1].signature.id@ != out@[k2].signature.id@
                by {
                assert(out@[k1].signature.id@ == sorted@[k1].1.signature.id@);
                assert(out@[k2].signature.id@ == sorted@[k2].1.signature.id@);
            }
            assert(most_similar_post(sv, tii, min_score, out@));
        }
        Ok(out)
    }

    /// The ids of the most similar regions, nearest first: the id projection
    /// of `most_similar_regions`.
    #[verifier::rlimit(100)]
    pub fn most_similar_ids(&self, id: String, min_score: u64) -> (r: Result<
        Vec<String>,
        SimilarityError,
    >)
        requires
            catalog_wf(self.signatures@),
        ensures
            r is Err <==> !has_id(self.signatures@, id@),
            r matches Err(e) ==> e == SimilarityError::UnknownRegionId,
            r matches Ok(v) ==> most_similar_ids_post(
                self.signatures@,
                target_index(self.signatures@, id@),
                min_score,
                v@,
            ),
    {
        let results = match self.most_similar_regions(id, min_score) {
            Ok(results) => results,
            Err(e) => {
                return Err(e);
            },
        };
        let n = results.len();
        let mut out: Vec<String> = Vec::new();
        let mut k: usize = 0;
        while k < n
            invariant
                n == results@.len(),
                k <= n,
                out@.len() == k,
                forall|k2: int| 0 <= k2 < k ==> (#[trigger] out@[k2])@ == results@[k2].signature.id@,
            decreases n - k,
        {
            out.push(results[k].signature.id.clone());
            k = k + 1;
        }
        proof {
            let sv = self.signatures@;
            let tii = target_index(sv, id@);
            assert(most_similar_post(sv, tii, min_score, results@));
            assert forall|k2: int| 0 <= k2 < out@.len() implies has_id(
                sv,
                (#[trigger] out@[k2])@,
            ) && {
                let j = target_index(sv, out@[k2]@);
                j != tii && score_spec(sv[tii], sv[j]) >= min_score
            } by {
                let rsig = results@[k2].signature;
                assert(has_id(sv, rsig.id@));
                assert(out@[k2]@ == rsig.id@);
            }
            assert forall|k1: int, k2: int|
                #![trigger out@[k1], out@[k2]]
                0 <= k1 <= k2 < out@.len() implies sig_dist(
                sv[tii],
                sv[target_index(sv, out@[k1]@)],
            ) <= sig_dist(sv[tii], sv[target_index(sv, out@[k2]@)]) by {
                let s1 = results@[k1].signature;
                let s2 = results@[k2].signature;
                assert(sig_dist(sv[tii], s1) <= sig_dist(sv[tii], s2));
                lemma_sig_dist_congr(sv[tii], s1, sv[target_index(sv, s1.id@)]);
                lemma_sig_dist_congr(sv[tii], s2, sv[target_index(sv, s2.id@)]);
                assert(out@[k1]@ == s1.id@ && out@[k2]@ == s2.id@);
            }
            assert forall|j: int|
                0 <= j < sv.len() && j != tii && score_spec(sv[tii], #[trigger] sv[j])
                    >= min_score implies exists|k2: int|
                0 <= k2 < out@.len() && (#[trigger] out@[k2])@ == sv[j].id@ by {
                let kw = choose|kw: int|
                    0 <= kw < results@.len() && (#[trigger] results@[kw]).signature.id@
                        == sv[j].id@;
                assert(out@[kw]@ == sv[j].id@);
                assert(0 <= kw < out@.len() && out@[kw]@ == sv[j].id@);
            }
            assert forall|k1: int, k2: int|
                #![trigger out@[k1], out@[k2]]
                0 <= k1 < k2 < out@.len() implies out@[k1]@ != out@[k2]@ by {
                assert(out@[k1]@ == results@[k1].signature.id@);
                assert(out@[k2]@ == results@[k2].signature.id@);
            }
            assert(most_similar_ids_post(sv, tii, min_score, out@));
        }
        Ok(out)
    }

    /// The id of the region whose centroid lies nearest, given the geodesic
    /// distance from the query point to each region's centroid in flattened
    /// catalog order; ties go to the region encountered first. `None` only
    /// on an empty catalog.
    pub fn id_of_closest_centroid(&self, distances: &Vec<u64>) -> (r: Option<String>)
        requires
            distances@.len() == flat_regions(self.groups@).len(),
        ensures
            r is Some <==> distances@.len() > 0,
            r matches Some(s) ==> s@ == flat_regions(self.groups@)[argmin_upto(
                distances@,
                distances@.len() as int,
            )].1@,
    {
        let n = distances.len();
        if n == 0 {
            return None;
        }
        let mut best: usize = 0;
        let mut f: usize = 1;
        while f < n
            invariant
                n == distances@.len(),
                1 <= f <= n,
                best < f,
                best == argmin_upto(distances@, f as int),
            decreases n - f,
        {
            if distances[f] < distances[best] {
                best = f;
            }
            f = f + 1;
        }
        let ng = self.groups.len();
        let mut g: usize = 0;
        let mut acc: usize = 0;
        while g < ng
            invariant
                ng == self.groups@.len(),
                n == distances@.len(),
                distances@.len() == flat_regions(self.groups@).len(),
                best < n,
                best == argmin_upto(distances@, n as int),
                g <= ng,
                acc == flat_upto(self.groups@, g as int).len(),
                acc <= best,
            decreases ng - g,
        {
            let len_g = self.groups[g].geometries.len();
            proof {
                assert(flat_upto(self.groups@, g + 1) == flat_upto(self.groups@, g as int)
                    + self.groups@[g as int].geometries@);
                lemma_flat_upto_prefix(self.groups@, g + 1, ng as int);
            }
            if best - acc < len_g {
                let k = best - acc;
                proof {
                    lemma_flat_entry(self.groups@, g as int, k as int);
                }
                return Some(self.groups[g].geometries[k].1.clone());
            }
            acc = acc + len_g;
            g = g + 1;
        }
        proof {
            assert(acc == flat_regions(self.groups@).len());
            assert(false);
        }
        None
    }
}

/// What a successful id query returns: each id names a distinct non-target
/// catalog signature whose score against the target clears the threshold,
/// every such signature is named, and the ids come ordered from the nearest
/// signature to the farthest.
pub open spec fn most_similar_ids_post(
    sigs: Seq<RegionSignature>,
    ti: int,
    min_score: u64,
    v: Seq<String>,
) -> bool {
    &&& forall|k: int| 0 <= k < v.len() ==> has_id(sigs, (#[trigger] v[k])@)
    &&& forall|k: int|
        0 <= k < v.len() ==> {
            let j = target_index(sigs, (#[trigger] v[k])@);
            j != ti && score_spec(sigs[ti], sigs[j]) >= min_score
        }
    &&& forall|k1: int, k2: int|
        #![trigger v[k1], v[k2]]
        0 <= k1 <= k2 < v.len() ==> sig_dist(sigs[ti], sigs[target_index(sigs, v[k1]@)])
            <= sig_dist(sigs[ti], sigs[target_index(sigs, v[k2]@)])
    &&& forall|j: int|
        0 <= j < sigs.len() && j != ti && score_spec(sigs[ti], #[trigger] sigs[j]) >= min_score
            ==> exists|k: int| 0 <= k < v.len() && (#[trigger] v[k])@ == sigs[j].id@
    &&& forall|k1: int, k2: int| #![trigger v[k1], v[k2]] 0 <= k1 < k2 < v.len() ==> v[k1]@ != v[k2]@
}

/// The first position of the smallest value among the first `n` entries.
pub open spec fn argmin_upto(d: Seq<u64>, n: int) -> int
    decreases n,
{
    if n <= 1 {
        0
    } else {
        if d[n - 1] < d[argmin_upto(d, n - 1)] {
            n - 1
        } else {
            argmin_upto(d, n - 1)
        }
    }
}

/// The argmin is the first position carrying the minimum: nothing before it
/// is as small, nothing anywhere is smaller.
pub proof fn lemma_argmin_first(d: Seq<u64>, n: int)
    requires
        1 <= n <= d.len(),
    ensures
        0 <= argmin_upto(d, n) < n,
        forall|i: int| 0 <= i < n ==> d[argmin_upto(d, n)] <= #[trigger] d[i],
        forall|i: int| 0 <= i < argmin_upto(d, n) ==> #[trigger] d[i] > d[argmin_upto(d, n)],
    decreases n,
{
    if n > 1 {
        lemma_argmin_first(d, n - 1);
    }
}

/// Region `k` of group `g` sits at flat position `flat_upto(g).len() + k`.
proof fn lemma_flat_entry(groups: Seq<RegionGroup>, g: int, k: int)
    requires
        0 <= g < groups.len(),
        0 <= k < groups[g].geometries@.len(),
    ensures
        flat_upto(groups, g).len() + k < flat_regions(groups).len(),
        flat_regions(groups)[flat_upto(groups, g).len() + k] == groups[g].geometries@[k],
{
    assert(flat_upto(groups, g + 1) == flat_upto(groups, g) + groups[g].geometries@);
    lemma_flat_upto_prefix(groups, g + 1, groups.len() as int);
    assert((flat_upto(groups, g) + groups[g].geometries@)[flat_upto(groups, g).len() + k]
        == groups[g].geometries@[k]);
}

proof fn lemma_max_dist_nonneg(samples: Seq<crate::builder::RadialSample>)
    ensures
        max_dist(samples, samples.len() as int) >= 0,
    decreases samples.len(),
{
    lemma_max_dist_nonneg_upto(samples, samples.len() as int);
}

proof fn lemma_max_dist_nonneg_upto(samples: Seq<crate::builder::RadialSample>, n: int)
    ensures
        max_dist(samples, n) >= 0,
    decreases n,
{
    if n > 0 {
        lemma_max_dist_nonneg_upto(samples, n - 1);
    }
}

} // verus!
