use linzer::builder::{build_signature, RadialSample, SampledRing, SignatureError};
use linzer::geom::Coordinate;
use linzer::signature::{RegionSignature, SCALE};

fn origin() -> Coordinate {
    Coordinate { lon_micro: 0, lat_micro: 0 }
}

fn sample(bearing_milli: u32, distance: u64) -> RadialSample {
    RadialSample { bearing_milli, distance }
}

fn build(id: &str, vertex: Vec<RadialSample>, edge: Vec<RadialSample>) -> RegionSignature {
    let ring = SampledRing { vertex_samples: vertex, edge_samples: edge };
    build_signature(id.to_string(), "g".to_string(), origin(), 1000, &ring).unwrap()
}

/// A square seen from its center: four corners at equal distance.
fn square_samples() -> Vec<RadialSample> {
    vec![
        sample(45_000, 1000),
        sample(135_000, 1000),
        sample(225_000, 1000),
        sample(315_000, 1000),
    ]
}

#[test]
fn signature_has_360_buckets_all_fractions_one_exactly_full() {
    let sig = build(
        "square-0",
        square_samples(),
        vec![sample(90_000, 707), sample(180_000, 707)],
    );
    assert_eq!(sig.lengths.len(), 360);
    for d in 0..360 {
        assert!(sig.lengths[d] <= SCALE);
    }
    assert!(sig.lengths.iter().any(|&v| v == SCALE));
    assert_eq!(sig.lengths[45], SCALE);
    assert_eq!(sig.lengths[90], 707_000);
    assert_eq!(sig.lengths[44], 0);
}

#[test]
fn buckets_keep_the_larger_normalized_value() {
    // Two samples in the same one-degree bucket: the larger one stays.
    let sig = build(
        "r-0",
        vec![sample(10_200, 400), sample(10_900, 900), sample(200_000, 1000)],
        vec![],
    );
    assert_eq!(sig.lengths[10], 900_000);
    assert_eq!(sig.lengths[200], SCALE);
}

#[test]
fn normalization_uses_original_vertices_only() {
    // The interpolated sample is normalized against the vertex maximum.
    let sig = build(
        "r-0",
        vec![sample(0, 800), sample(90_000, 400)],
        vec![sample(45_000, 600)],
    );
    assert_eq!(sig.lengths[0], SCALE);
    assert_eq!(sig.lengths[90], 500_000);
    assert_eq!(sig.lengths[45], 750_000);
}

#[test]
fn dominant_is_the_four_fold_argmax() {
    let sig = build("square-0", square_samples(), vec![]);
    // Recompute the four-fold sums from the stored buckets.
    let total = |d: usize| -> u64 {
        sig.lengths[d % 360] + sig.lengths[(d + 90) % 360] + sig.lengths[(d + 180) % 360]
            + sig.lengths[(d + 270) % 360]
    };
    let dominant_total = total(sig.dominant.0);
    for d in 0..360 {
        assert!(dominant_total >= total(d));
    }
    // A square's four quarter-turn sums are exactly equal.
    assert_eq!(total(45), total(135));
    assert_eq!(total(45), total(225));
    assert_eq!(total(45), total(315));
    assert_eq!(sig.dominant.0, 45);
    assert_eq!(sig.dominant.1, SCALE);
}

#[test]
fn dominant_is_a_pure_function_of_the_buckets() {
    let sig = build(
        "r-0",
        vec![sample(10_000, 1000), sample(100_000, 500), sample(190_000, 1000)],
        vec![],
    );
    // Rebuilding a signature from the stored buckets reproduces the dominant.
    let rebuilt = RegionSignature::new(
        "copy".to_string(),
        "g".to_string(),
        origin(),
        1000,
        sig.lengths.clone(),
    );
    assert_eq!(rebuilt.dominant, sig.dominant);
}

#[test]
fn degenerate_polygon_fails_with_degenerate_geometry() {
    // Every vertex coincides with the centroid: all radial lengths are zero.
    let ring = SampledRing {
        vertex_samples: vec![sample(0, 0), sample(0, 0), sample(0, 0)],
        edge_samples: vec![],
    };
    let r = build_signature("dot-0".to_string(), "g".to_string(), origin(), 1000, &ring);
    assert!(matches!(r, Err(SignatureError::DegenerateGeometry)));
}

#[test]
fn empty_polygon_fails_with_malformed_polygon() {
    let ring = SampledRing { vertex_samples: vec![], edge_samples: vec![] };
    let r = build_signature("none-0".to_string(), "g".to_string(), origin(), 1000, &ring);
    assert!(matches!(r, Err(SignatureError::MalformedPolygon)));
}
