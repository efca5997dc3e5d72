use linzer::annotated::{Annotated, SimilarityError};
use linzer::builder::{build_signature, RadialSample, SampledRing};
use linzer::geom::Coordinate;
use linzer::signature::{RegionSignature, SCALE};

fn origin() -> Coordinate {
    Coordinate { lon_micro: 0, lat_micro: 0 }
}

fn sample(bearing_milli: u32, distance: u64) -> RadialSample {
    RadialSample { bearing_milli, distance }
}

fn build(id: &str, vertex: Vec<RadialSample>) -> RegionSignature {
    let ring = SampledRing { vertex_samples: vertex, edge_samples: vec![] };
    build_signature(id.to_string(), "g".to_string(), origin(), 1000, &ring).unwrap()
}

fn spike(id: &str) -> RegionSignature {
    // A single full bucket at degree zero.
    build(id, vec![sample(0, 1000)])
}

fn wide(id: &str) -> RegionSignature {
    // Fifty full buckets, degrees 0 through 49.
    let vertex: Vec<RadialSample> = (0..50).map(|d| sample(d * 1000, 1000)).collect();
    build(id, vertex)
}

#[test]
fn distance_is_symmetric() {
    let a = spike("a");
    let b = wide("b");
    assert_eq!(a.distance_from(&b), b.distance_from(&a));
}

#[test]
fn distance_from_self_is_zero() {
    let a = wide("a");
    assert_eq!(a.distance_from(&a), 0);
}

#[test]
fn distance_has_the_exact_average_value() {
    let a = spike("a");
    let c = wide("c");
    // Both signatures align to their own dominant degree zero; they then
    // disagree on exactly the 49 buckets 1..=49, each by the full unit.
    assert_eq!(a.distance_from(&c), 49 * SCALE / 360);
}

#[test]
fn arrange_reads_buckets_from_the_dominant_degree() {
    let sig = build("r-0", vec![sample(10_000, 1000), sample(100_000, 500)]);
    assert_eq!(sig.dominant.0, 10);
    let arranged = sig.arrange_lengths_by_dominant_degree();
    assert_eq!(arranged.len(), 360);
    assert_eq!(arranged[0], SCALE);
    assert_eq!(arranged[90], 500_000);
    assert_eq!(arranged[350], sig.lengths[0]);
}

#[test]
fn square_rotated_by_a_quarter_turn_scores_full_similarity() {
    // An asymmetric cross shape, and the same shape rotated ninety degrees:
    // each aligns to its own dominant axis, so they compare as identical.
    let a = build(
        "cross-0",
        vec![
            sample(10_000, 1000),
            sample(100_000, 500),
            sample(190_000, 1000),
            sample(280_000, 500),
        ],
    );
    let b = build(
        "cross-90",
        vec![
            sample(100_000, 1000),
            sample(190_000, 500),
            sample(280_000, 1000),
            sample(10_000, 500),
        ],
    );
    assert_eq!(a.dominant.0, 10);
    assert_eq!(b.dominant.0, 100);
    assert_eq!(a.distance_from(&b), 0);

    let annotated = Annotated { groups: vec![], signatures: vec![a, b] };
    let results = annotated.most_similar_regions("cross-0".to_string(), 900_000).unwrap();
    assert_eq!(results.len(), 1);
    assert_eq!(results[0].signature.id, "cross-90");
    assert_eq!(results[0].score, SCALE);
}

#[test]
fn most_similar_filters_by_score_and_sorts_descending() {
    let a = spike("a");
    let b = spike("b");
    let c = wide("c");
    let annotated = Annotated { groups: vec![], signatures: vec![a, b, c] };

    // Only `b` clears a 0.9 threshold: `c` scores about 0.864.
    let strict = annotated.most_similar_regions("a".to_string(), 900_000).unwrap();
    assert_eq!(strict.len(), 1);
    assert_eq!(strict[0].signature.id, "b");
    assert_eq!(strict[0].score, SCALE);

    // Without a threshold both come back, nearest first.
    let all = annotated.most_similar_regions("a".to_string(), 0).unwrap();
    assert_eq!(all.len(), 2);
    assert_eq!(all[0].signature.id, "b");
    assert_eq!(all[0].score, SCALE);
    assert_eq!(all[1].signature.id, "c");
    assert_eq!(all[1].score, (360 * SCALE - 49 * SCALE) / 360);

    // An empty result is a valid outcome when nothing clears the threshold.
    let b_only = annotated.most_similar_regions("c".to_string(), 999_999).unwrap();
    assert_eq!(b_only.len(), 0);
}

#[test]
fn most_similar_ids_projects_the_ranking() {
    let a = spike("a");
    let b = spike("b");
    let c = wide("c");
    let annotated = Annotated { groups: vec![], signatures: vec![a, b, c] };
    let ids = annotated.most_similar_ids("a".to_string(), 0).unwrap();
    assert_eq!(ids, vec!["b".to_string(), "c".to_string()]);
}

#[test]
fn unknown_target_id_is_an_error() {
    let annotated = Annotated { groups: vec![], signatures: vec![spike("a")] };
    let r = annotated.most_similar_regions("missing".to_string(), 0);
    assert!(matches!(r, Err(SimilarityError::UnknownRegionId)));
    let r2 = annotated.most_similar_ids("missing".to_string(), 0);
    assert!(matches!(r2, Err(SimilarityError::UnknownRegionId)));
}
