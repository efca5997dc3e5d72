use linzer::annotated::Annotated;
use linzer::builder::{interpolation_counts, RadialSample, SampledRing, SignatureError};
use linzer::errors::{BoundsError, RegionsError, RouterError, SamplerError, WaterError};
use linzer::geom::{Coordinate, Geometry, Polygon};
use linzer::region_group::RegionGroup;
use linzer::routing::{Profile, Server};
use linzer::signature::SCALE;
use linzer::testcard::TestCard;

fn micro(lon: f64, lat: f64) -> Coordinate {
    Coordinate {
        lon_micro: (lon * 1_000_000.0).round() as i64,
        lat_micro: (lat * 1_000_000.0).round() as i64,
    }
}

#[test]
fn interpolation_counts_fill_wide_bearing_gaps() {
    // Consecutive bearings 0 and 90 degrees: 180 samples per half degree.
    let counts = interpolation_counts(&vec![0, 90_000]);
    assert_eq!(counts, vec![180, 180]);
    // A gap under half a degree needs no fill-in.
    let narrow = interpolation_counts(&vec![10_000, 10_300]);
    assert_eq!(narrow, vec![0, 0]);
    // Exactly half a degree takes one sample; just over it takes two.
    let exact = interpolation_counts(&vec![0, 500]);
    assert_eq!(exact, vec![1, 1]);
    let over = interpolation_counts(&vec![0, 501]);
    assert_eq!(over, vec![2, 2]);
    // The first vertex pairs with the last one, cyclically.
    let three = interpolation_counts(&vec![0, 1000, 3000]);
    assert_eq!(three, vec![6, 2, 4]);
    let empty = interpolation_counts(&vec![]);
    assert_eq!(empty.len(), 0);
}

#[test]
fn annotate_builds_one_signature_per_region() {
    let square = Polygon::new(vec![
        micro(0.0, 0.0),
        micro(1.0, 0.0),
        micro(1.0, 1.0),
        micro(0.0, 1.0),
        micro(0.0, 0.0),
    ]);
    let group = RegionGroup::new("test".to_string(), vec![Geometry::Polygon(square)]);
    let ring = SampledRing {
        vertex_samples: vec![
            RadialSample { bearing_milli: 45_000, distance: 1000 },
            RadialSample { bearing_milli: 135_000, distance: 1000 },
            RadialSample { bearing_milli: 225_000, distance: 1000 },
            RadialSample { bearing_milli: 315_000, distance: 1000 },
        ],
        edge_samples: vec![RadialSample { bearing_milli: 0, distance: 707 }],
    };
    let annotated = Annotated::new(vec![group], &vec![vec![ring]]).unwrap();
    assert_eq!(annotated.signatures.len(), 1);
    let sig = &annotated.signatures[0];
    assert_eq!(sig.id, "test-0");
    assert_eq!(sig.group_name, "test");
    assert_eq!(sig.centroid, micro(0.5, 0.5));
    assert_eq!(sig.bucket_width_milli, 1000);
    assert_eq!(sig.lengths[45], SCALE);
    assert_eq!(sig.lengths[0], 707_000);
}

#[test]
fn annotate_stops_on_a_degenerate_region() {
    let square = Polygon::new(vec![
        micro(0.0, 0.0),
        micro(1.0, 0.0),
        micro(1.0, 1.0),
        micro(0.0, 1.0),
        micro(0.0, 0.0),
    ]);
    let group = RegionGroup::new("test".to_string(), vec![Geometry::Polygon(square)]);
    let ring = SampledRing {
        vertex_samples: vec![RadialSample { bearing_milli: 0, distance: 0 }],
        edge_samples: vec![],
    };
    let r = Annotated::new(vec![group], &vec![vec![ring]]);
    assert!(matches!(r, Err(SignatureError::DegenerateGeometry)));
}

#[test]
fn error_messages_match_their_conditions() {
    assert_eq!(
        RegionsError::CannotReadGeometry.message(),
        "Could not read geometry from file"
    );
    assert_eq!(
        RouterError::MissingOvertureMapsBase.message(),
        "OvertureMaps base dir required"
    );
    assert_eq!(
        SamplerError::CannotFindGersId.message(),
        "Unable to find anything with that GERS Id"
    );
    assert_eq!(
        SamplerError::CannotGetEnoughRandomPoints.message(),
        "Random sampling of area did not produce enough points"
    );
    assert_eq!(
        BoundsError::CannotFindLargestPolygon.message(),
        "Could not find largest Polygon in MultiPolygon"
    );
    assert_eq!(WaterError::CannotFindWater.message(), "Unable to find water");
}

#[test]
fn routing_enums_name_their_endpoints() {
    assert_eq!(Server::Default.label(), "default");
    assert_eq!(Server::EU.label(), "eu");
    assert_eq!(Server::default(), Server::Default);
    assert_eq!(Server::Default.endpoint_base(), "https://api.stadiamaps.com");
    assert_eq!(Server::EU.endpoint_base(), "https://api-eu.stadiamaps.com");
    assert_eq!(Profile::Auto.label(), "auto");
    assert_eq!(Profile::Pedestrian.label(), "pedestrian");
}

#[test]
fn testcard_probes_sit_a_hundredth_degree_away() {
    let card = TestCard::new(micro(4.9, 52.37));
    assert_eq!(card.x(), 4_900_000);
    assert_eq!(card.y(), 52_370_000);
    assert_eq!(card.coord(), micro(4.9, 52.37));
    assert_eq!(card.center_point, micro(4.9, 52.37));
    assert_eq!(card.northern_point, micro(4.9, 52.38));
    assert_eq!(card.east_point, micro(4.91, 52.37));
}
