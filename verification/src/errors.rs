use vstd::prelude::*;
use vstd::string::StringExecFns;

verus! {

/// Failures of the region-finding pipeline.
#[derive(Clone, Copy, PartialEq, Eq, Structural, Debug)]
pub enum RegionsError {
    CannotReadGeometry,
}

impl RegionsError {
    pub fn message(&self) -> (r: String)
        ensures
            r@ == "Could not read geometry from file"@,
    {
        String::from_str("Could not read geometry from file")
    }
}

/// Failures of the route-planning pipeline.
#[derive(Clone, Copy, PartialEq, Eq, Structural, Debug)]
pub enum RouterError {
    MissingOvertureMapsBase,
}

impl RouterError {
    pub fn message(&self) -> (r: String)
        ensures
            r@ == "OvertureMaps base dir required"@,
    {
        String::from_str("OvertureMaps base dir required")
    }
}

/// Failures of the point-sampling pipeline.
#[derive(Clone, Copy, PartialEq, Eq, Structural, Debug)]
pub enum SamplerError {
    MissingOvertureMapsBase,
    CannotFindGersId,
    CannotFindLargestPolygon,
    CannotCreateBoundingRect,
    CannotGetEnoughRandomPoints,
}

impl SamplerError {
    pub fn message(&self) -> (r: String)
        ensures
            *self == SamplerError::MissingOvertureMapsBase ==> r@
                == "OvertureMaps base dir required"@,
            *self == SamplerError::CannotFindGersId ==> r@
                == "Unable to find anything with that GERS Id"@,
            *self == SamplerError::CannotFindLargestPolygon ==> r@
                == "Could not find largest Polygon in MultiPolygon"@,
            *self == SamplerError::CannotCreateBoundingRect ==> r@
                == "Geometry for GERS Id could be converted into bounding rect"@,
            *self == SamplerError::CannotGetEnoughRandomPoints ==> r@
                == "Random sampling of area did not produce enough points"@,
    {
        match self {
            SamplerError::MissingOvertureMapsBase => String::from_str(
                "OvertureMaps base dir required",
            ),
            SamplerError::CannotFindGersId => String::from_str(
                "Unable to find anything with that GERS Id",
            ),
            SamplerError::CannotFindLargestPolygon => String::from_str(
                "Could not find largest Polygon in MultiPolygon",
            ),
            SamplerError::CannotCreateBoundingRect => String::from_str(
                "Geometry for GERS Id could be converted into bounding rect",
            ),
            SamplerError::CannotGetEnoughRandomPoints => String::from_str(
                "Random sampling of area did not produce enough points",
            ),
        }
    }
}

/// Failures when reading an area's bounds.
#[derive(Clone, Copy, PartialEq, Eq, Structural, Debug)]
pub enum BoundsError {
    CannotFindGersId,
    CannotFindLargestPolygon,
}

impl BoundsError {
    pub fn message(&self) -> (r: String)
        ensures
            *self == BoundsError::CannotFindGersId ==> r@
                == "Unable to find anything with that GERS Id"@,
            *self == BoundsError::CannotFindLargestPolygon ==> r@
                == "Could not find largest Polygon in MultiPolygon"@,
    {
        match self {
            BoundsError::CannotFindGersId => String::from_str(
                "Unable to find anything with that GERS Id",
            ),
            BoundsError::CannotFindLargestPolygon => String::from_str(
                "Could not find largest Polygon in MultiPolygon",
            ),
        }
    }
}

/// Failures when extracting water geometry.
#[derive(Clone, Copy, PartialEq, Eq, Structural, Debug)]
pub enum WaterError {
    CannotFindBounds,
    CannotFindWater,
}

impl WaterError {
    pub fn message(&self) -> (r: String)
        ensures
            *self == WaterError::CannotFindBounds ==> r@ == "Unable to find bounds"@,
            *self == WaterError::CannotFindWater ==> r@ == "Unable to find water"@,
    {
        match self {
            WaterError::CannotFindBounds => String::from_str("Unable to find bounds"),
            WaterError::CannotFindWater => String::from_str("Unable to find water"),
        }
    }
}

} // verus!
