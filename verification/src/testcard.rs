use vstd::prelude::*;

use crate::geom::{coord_in_range, Coordinate};

verus! {

/// The bearing probes are taken one hundredth of a degree away from the
/// center, in micro-degrees.
pub const TESTCARD_OFFSET_MICRO: i64 = 10_000;

/// A small calibration fixture around one coordinate: the point itself, and
/// two probe points a hundredth of a degree to its north and to its east,
/// from which a caller can measure reference bearings.
#[derive(Clone, Copy, PartialEq, Eq, Structural, Debug)]
pub struct TestCard {
    pub coord: Coordinate,
    pub center_point: Coordinate,
    pub northern_point: Coordinate,
    pub east_point: Coordinate,
}

impl TestCard {
    /// Centers a card on `coord` and places the two probe points.
    pub fn new(coord: Coordinate) -> (t: TestCard)
        requires
            coord_in_range(coord),
        ensures
            t.coord == coord,
            t.center_point == coord,
            t.northern_point == (Coordinate {
                lon_micro: coord.lon_micro,
                lat_micro: (coord.lat_micro + TESTCARD_OFFSET_MICRO) as i64,
            }),
            t.east_point == (Coordinate {
                lon_micro: (coord.lon_micro + TESTCARD_OFFSET_MICRO) as i64,
                lat_micro: coord.lat_micro,
            }),
    {
        let center_point = coord;
        let northern_point = Coordinate {
            lon_micro: coord.lon_micro,
            lat_micro: coord.lat_micro + TESTCARD_OFFSET_MICRO,
        };
        let east_point = Coordinate {
            lon_micro: coord.lon_micro + TESTCARD_OFFSET_MICRO,
            lat_micro: coord.lat_micro,
        };
        TestCard { coord, center_point, northern_point, east_point }
    }

    /// The longitude of the center, in micro-degrees.
    pub fn x(&self) -> (r: i64)
        ensures
            r == self.coord.lon_micro,
    {
        self.coord.lon_micro
    }

    /// The latitude of the center, in micro-degrees.
    pub fn y(&self) -> (r: i64)
        ensures
            r == self.coord.lat_micro,
    {
        self.coord.lat_micro
    }

    /// The center coordinate.
    pub fn coord(&self) -> (r: Coordinate)
        ensures
            r == self.coord,
    {
        self.coord
    }
}

} // verus!
