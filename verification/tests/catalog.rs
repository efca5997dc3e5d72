use linzer::annotated::Annotated;
use linzer::geom::{centroid, Coordinate, Geometry, Polygon};
use linzer::region_group::RegionGroup;

fn micro(lon: f64, lat: f64) -> Coordinate {
    Coordinate {
        lon_micro: (lon * 1_000_000.0).round() as i64,
        lat_micro: (lat * 1_000_000.0).round() as i64,
    }
}

fn unit_square() -> Vec<Coordinate> {
    vec![
        micro(0.0, 0.0),
        micro(1.0, 0.0),
        micro(1.0, 1.0),
        micro(0.0, 1.0),
        micro(0.0, 0.0),
    ]
}

#[test]
fn test_takes_generic_geometries_and_supplies_polygons_centroids_and_identifiers() {
    let polygon = Polygon::new(unit_square());
    let geometry = Geometry::Polygon(polygon);
    let collection = vec![geometry];
    let group = RegionGroup::new("test".to_string(), collection);
    let geometries = group.geometries();
    assert_eq!(geometries.len(), 1);
    let (polygon, id, centroid) = &geometries[0];
    assert_eq!(id, "test-0");
    assert_eq!(polygon.exterior(), &unit_square());
    assert_eq!(centroid, &micro(0.5, 0.5));
}

#[test]
fn test_ignores_non_polygon_geometry() {
    let point = Geometry::Point(micro(0.0, 0.0));
    let collection = vec![point];
    let group = RegionGroup::new("test".to_string(), collection);
    let geometries = group.geometries();
    assert_eq!(geometries.len(), 0);
}

#[test]
fn centroid_of_unit_square_is_its_center() {
    let p = Polygon::new(unit_square());
    assert_eq!(centroid(&p), Some(micro(0.5, 0.5)));
}

#[test]
fn centroid_of_zero_area_ring_is_none() {
    let p = Polygon::new(vec![micro(1.0, 2.0), micro(1.0, 2.0), micro(1.0, 2.0)]);
    assert_eq!(centroid(&p), None);
}

#[test]
fn centroid_failure_drops_the_region() {
    let degenerate = Geometry::Polygon(Polygon::new(vec![
        micro(1.0, 2.0),
        micro(1.0, 2.0),
        micro(1.0, 2.0),
    ]));
    let group = RegionGroup::new("bad".to_string(), vec![degenerate]);
    assert_eq!(group.geometries().len(), 0);
}

#[test]
fn region_ids_use_the_collection_position() {
    let collection = vec![
        Geometry::Point(micro(3.0, 4.0)),
        Geometry::Polygon(Polygon::new(unit_square())),
    ];
    let group = RegionGroup::new("zone".to_string(), collection);
    let geometries = group.geometries();
    assert_eq!(geometries.len(), 1);
    assert_eq!(&geometries[0].1, "zone-1");
}

#[test]
fn accessors_expose_centroids_regions_and_rays() {
    let group = RegionGroup::new(
        "test".to_string(),
        vec![Geometry::Polygon(Polygon::new(unit_square()))],
    );
    let annotated = Annotated { groups: vec![group], signatures: vec![] };

    let centroids = annotated.centroids_geometry();
    assert_eq!(centroids.len(), 1);
    match &centroids[0] {
        Geometry::Point(c) => assert_eq!(c, &micro(0.5, 0.5)),
        _ => panic!("expected a point"),
    }

    let regions = annotated.regions_geometry();
    assert_eq!(regions.len(), 1);
    match &regions[0] {
        Geometry::Polygon(p) => assert_eq!(p.exterior(), &unit_square()),
        _ => panic!("expected a polygon"),
    }

    let rays = annotated.rays();
    assert_eq!(rays.len(), 1);
    assert_eq!(rays[0].len(), 5);
    assert_eq!(rays[0][0].start, micro(0.5, 0.5));
    assert_eq!(rays[0][0].end, micro(0.0, 0.0));
    assert_eq!(rays[0][1].end, micro(1.0, 0.0));
}

#[test]
fn nearest_centroid_on_single_region_always_answers_that_region() {
    let group = RegionGroup::new(
        "solo".to_string(),
        vec![Geometry::Polygon(Polygon::new(unit_square()))],
    );
    let annotated = Annotated { groups: vec![group], signatures: vec![] };
    // Whatever the query point was, a one-region catalog answers that region.
    assert_eq!(annotated.id_of_closest_centroid(&vec![123_456]), Some("solo-0".to_string()));
    assert_eq!(annotated.id_of_closest_centroid(&vec![0]), Some("solo-0".to_string()));
    assert_eq!(
        annotated.id_of_closest_centroid(&vec![u64::MAX]),
        Some("solo-0".to_string())
    );
}

#[test]
fn nearest_centroid_takes_the_first_minimum() {
    let collection = vec![
        Geometry::Polygon(Polygon::new(unit_square())),
        Geometry::Polygon(Polygon::new(
            unit_square().iter().map(|c| Coordinate {
                lon_micro: c.lon_micro + 5_000_000,
                lat_micro: c.lat_micro,
            }).collect(),
        )),
    ];
    let group = RegionGroup::new("pair".to_string(), collection);
    let annotated = Annotated { groups: vec![group], signatures: vec![] };
    assert_eq!(annotated.id_of_closest_centroid(&vec![700, 300]), Some("pair-1".to_string()));
    // A tie goes to the region encountered first.
    assert_eq!(annotated.id_of_closest_centroid(&vec![300, 300]), Some("pair-0".to_string()));
}

#[test]
fn nearest_centroid_on_empty_catalog_is_none() {
    let annotated = Annotated { groups: vec![], signatures: vec![] };
    assert_eq!(annotated.id_of_closest_centroid(&vec![]), None);
}

#[test]
fn exclude_border_keeps_interior_polygons_only() {
    let raw = |pts: Vec<(i64, i64)>| -> Geometry {
        Geometry::Polygon(Polygon::new(
            pts.iter()
                .map(|&(lon, lat)| Coordinate { lon_micro: lon, lat_micro: lat })
                .collect(),
        ))
    };
    let full_extent = raw(vec![
        (0, 0),
        (1_000_000, 0),
        (1_000_000, 1_000_000),
        (0, 1_000_000),
        (0, 0),
    ]);
    let interior = raw(vec![
        (400_000, 400_000),
        (600_000, 400_000),
        (600_000, 600_000),
        (400_000, 600_000),
        (400_000, 400_000),
    ]);
    // The collection's box is pulled in by one percent: 10_000 on each side.
    // This square touches the pulled-in box exactly and stays.
    let touching = raw(vec![
        (10_000, 10_000),
        (200_000, 10_000),
        (200_000, 200_000),
        (10_000, 200_000),
        (10_000, 10_000),
    ]);
    let point = Geometry::Point(Coordinate { lon_micro: 500_000, lat_micro: 500_000 });
    let collection = vec![full_extent, interior, touching, point];
    let kept = linzer::filters::exclude_border(&collection);
    assert_eq!(kept.len(), 2);
    match &kept[0] {
        Geometry::Polygon(p) => assert_eq!(p.exterior()[0], Coordinate {
            lon_micro: 400_000,
            lat_micro: 400_000,
        }),
        _ => panic!("expected a polygon"),
    }
    match &kept[1] {
        Geometry::Polygon(p) => assert_eq!(p.exterior()[0], Coordinate {
            lon_micro: 10_000,
            lat_micro: 10_000,
        }),
        _ => panic!("expected a polygon"),
    }
}
