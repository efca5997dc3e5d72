use vstd::prelude::*;

verus! {

/// A geographic position in fixed-point micro-degrees: one unit is one
/// millionth of a degree of longitude or latitude.
#[derive(Clone, Copy, PartialEq, Eq, Structural, Debug)]
pub struct Coordinate {
    pub lon_micro: i64,
    pub lat_micro: i64,
}

/// Longitude stays within +/-180 degrees, latitude within +/-90 degrees.
pub open spec fn coord_in_range(c: Coordinate) -> bool {
    &&& -180_000_000 <= c.lon_micro <= 180_000_000
    &&& -90_000_000 <= c.lat_micro <= 90_000_000
}

/// A ring the centroid arithmetic accepts: in-range coordinates and a vertex
/// count small enough that the accumulated sums stay well inside `i128`.
pub open spec fn ring_wf(ring: Seq<Coordinate>) -> bool {
    &&& ring.len() <= 1_000_000
    &&& forall|i: int| 0 <= i < ring.len() ==> coord_in_range(#[trigger] ring[i])
}

/// A simple polygon: an ordered ring of coordinates. The ring is treated as
/// cyclic, so it may be stored closed (first repeated last) or open.
pub struct Polygon {
    pub exterior: Vec<Coordinate>,
}

impl Polygon {
    pub fn new(exterior: Vec<Coordinate>) -> (p: Polygon)
        ensures
            p.exterior@ == exterior@,
    {
        Polygon { exterior }
    }

    /// The ring of vertices, in order.
    pub fn exterior(&self) -> (r: &Vec<Coordinate>)
        ensures
            r@ == self.exterior@,
    {
        &self.exterior
    }

    pub open spec fn wf(self) -> bool {
        ring_wf(self.exterior@)
    }
}

/// One member of a heterogeneous geometry collection; only the polygons are
/// picked up by the region catalog, the rest are carried and ignored.
pub enum Geometry {
    Point(Coordinate),
    Line(Vec<Coordinate>),
    Polygon(Polygon),
}

/// A straight segment from a region's centroid out to one boundary vertex.
#[derive(Clone, Copy, PartialEq, Eq, Structural, Debug)]
pub struct Ray {
    pub start: Coordinate,
    pub end: Coordinate,
}

/// The cross product term of the edge leaving vertex `i` of the cyclic ring:
/// `x_i * y_next - x_next * y_i`.
pub open spec fn cross_at(ring: Seq<Coordinate>, i: int) -> int {
    ring[i].lon_micro * ring[(i + 1) % (ring.len() as int)].lat_micro - ring[(i + 1) % (
    ring.len() as int)].lon_micro * ring[i].lat_micro
}

/// Twice the signed area contributed by the first `n` edges.
pub open spec fn cross_sum(ring: Seq<Coordinate>, n: int) -> int
    decreases n,
{
    if n <= 0 {
        0
    } else {
        cross_sum(ring, n - 1) + cross_at(ring, n - 1)
    }
}

/// The longitude numerator of the centroid formula over the first `n` edges:
/// the sum of `(x_i + x_next) * cross_i`.
pub open spec fn wx_sum(ring: Seq<Coordinate>, n: int) -> int
    decreases n,
{
    if n <= 0 {
        0
    } else {
        wx_sum(ring, n - 1) + (ring[n - 1].lon_micro + ring[n % (ring.len() as int)].lon_micro)
            * cross_at(ring, n - 1)
    }
}

/// The latitude numerator of the centroid formula over the first `n` edges.
pub open spec fn wy_sum(ring: Seq<Coordinate>, n: int) -> int
    decreases n,
{
    if n <= 0 {
        0
    } else {
        wy_sum(ring, n - 1) + (ring[n - 1].lat_micro + ring[n % (ring.len() as int)].lat_micro)
            * cross_at(ring, n - 1)
    }
}

pub open spec fn abs_int(a: int) -> int {
    if a >= 0 {
        a
    } else {
        -a
    }
}

/// Division rounding toward zero, as the machine integer division does.
pub open spec fn trunc_div(a: int, b: int) -> int {
    if (a >= 0) == (b >= 0) {
        abs_int(a) / abs_int(b)
    } else {
        -(abs_int(a) / abs_int(b))
    }
}

/// The centroid a ring determines: the standard polygon centroid formula in
/// micro-degree integers with truncating division. `None` when the ring is
/// empty, when its signed area vanishes, or when the quotient falls outside
/// the coordinate range.
pub open spec fn centroid_spec(ring: Seq<Coordinate>) -> Option<Coordinate> {
    let n = ring.len() as int;
    let a2 = cross_sum(ring, n);
    if n == 0 || a2 == 0 {
        None
    } else {
        let qx = trunc_div(wx_sum(ring, n), 3 * a2);
        let qy = trunc_div(wy_sum(ring, n), 3 * a2);
        if -180_000_000 <= qx <= 180_000_000 && -90_000_000 <= qy <= 90_000_000 {
            Some(Coordinate { lon_micro: qx as i64, lat_micro: qy as i64 })
        } else {
            None
        }
    }
}

/// An element-wise copy of a coordinate vector.
pub(crate) fn copy_coords(v: &Vec<Coordinate>) -> (r: Vec<Coordinate>)
    ensures
        r@ == v@,
{
    let mut r: Vec<Coordinate> = Vec::new();
    let mut i: usize = 0;
    while i < v.len()
        invariant
            i <= v@.len(),
            r@ == v@.take(i as int),
        decreases v@.len() - i,
    {
        r.push(v[i]);
        proof {
            assert(r@ =~= v@.take(i + 1));
        }
        i = i + 1;
    }
    proof {
        assert(v@.take(v@.len() as int) =~= v@);
    }
    r
}

/// Division of `i128` values rounding toward zero.
fn trunc_div_i128(a: i128, b: i128) -> (r: i128)
    requires
        b != 0,
        abs_int(a as int) < 0x4000_0000_0000_0000_0000_0000_0000_0000,
        abs_int(b as int) < 0x4000_0000_0000_0000_0000_0000_0000_0000,
    ensures
        r == trunc_div(a as int, b as int),
{
    let neg: bool = (a < 0) != (b < 0);
    let aa: u128 = if a < 0 {
        (-a) as u128
    } else {
        a as u128
    };
    let bb: u128 = if b < 0 {
        (-b) as u128
    } else {
        b as u128
    };
    let q: u128 = aa / bb;
    proof {
        assert(aa / bb <= aa) by (nonlinear_arith)
            requires
                bb >= 1,
        ;
    }
    if neg {
        -(q as i128)
    } else {
        q as i128
    }
}

/// The centroid of the polygon's ring, by the standard area-weighted formula
/// on micro-degree integers; `None` for an empty or zero-area ring.
pub fn centroid(p: &Polygon) -> (r: Option<Coordinate>)
    requires
        p.wf(),
    ensures
        r == centroid_spec(p.exterior@),
{
    let ring = &p.exterior;
    let n = ring.len();
    if n == 0 {
        return None;
    }
    let mut a2: i128 = 0;
    let mut wx: i128 = 0;
    let mut wy: i128 = 0;
    let mut i: usize = 0;
    while i < n
        invariant
            ring_wf(ring@),
            n == ring@.len(),
            1 <= n,
            i <= n,
            a2 == cross_sum(ring@, i as int),
            wx == wx_sum(ring@, i as int),
            wy == wy_sum(ring@, i as int),
            abs_int(a2 as int) <= i * 32_400_000_000_000_000,
            abs_int(wx as int) <= i * 11_664_000_000_000_000_000_000_000,
            abs_int(wy as int) <= i * 11_664_000_000_000_000_000_000_000,
        decreases n - i,
    {
        let j: usize = if i + 1 < n {
            i + 1
        } else {
            0
        };
        proof {
            assert(j == (i + 1) % (n as int)) by (nonlinear_arith)
                requires
                    0 <= i < n,
                    j == if i + 1 < n { i + 1 as int } else { 0 as int },
            ;
        }
        let a = ring[i];
        let b = ring[j];
        proof {
            assert((a.lon_micro as int) * (b.lat_micro as int) <= 16_200_000_000_000_000 && (
            a.lon_micro as int) * (b.lat_micro as int) >= -16_200_000_000_000_000)
                by (nonlinear_arith)
                requires
                    -180_000_000 <= a.lon_micro <= 180_000_000,
                    -90_000_000 <= b.lat_micro <= 90_000_000,
            ;
            assert((b.lon_micro as int) * (a.lat_micro as int) <= 16_200_000_000_000_000 && (
            b.lon_micro as int) * (a.lat_micro as int) >= -16_200_000_000_000_000)
                by (nonlinear_arith)
                requires
                    -180_000_000 <= b.lon_micro <= 180_000_000,
                    -90_000_000 <= a.lat_micro <= 90_000_000,
            ;
        }
        let cross: i128 = a.lon_micro as i128 * b.lat_micro as i128 - b.lon_micro as i128
            * a.lat_micro as i128;
        proof {
            assert((a.lon_micro as int + b.lon_micro as int) * (cross as int)
                <= 11_664_000_000_000_000_000_000_000 && (a.lon_micro as int + b.lon_micro as int)
                * (cross as int) >= -11_664_000_000_000_000_000_000_000) by (nonlinear_arith)
                requires
                    -360_000_000 <= a.lon_micro as int + b.lon_micro as int <= 360_000_000,
                    -32_400_000_000_000_000 <= cross as int <= 32_400_000_000_000_000,
            ;
            assert((a.lat_micro as int + b.lat_micro as int) * (cross as int)
                <= 11_664_000_000_000_000_000_000_000 && (a.lat_micro as int + b.lat_micro as int)
                * (cross as int) >= -11_664_000_000_000_000_000_000_000) by (nonlinear_arith)
                requires
                    -180_000_000 <= a.lat_micro as int + b.lat_micro as int <= 180_000_000,
                    -32_400_000_000_000_000 <= cross as int <= 32_400_000_000_000_000,
            ;
        }
        let wxt: i128 = (a.lon_micro as i128 + b.lon_micro as i128) * cross;
        let wyt: i128 = (a.lat_micro as i128 + b.lat_micro as i128) * cross;
        a2 = a2 + cross;
        wx = wx + wxt;
        wy = wy + wyt;
        i = i + 1;
    }
    if a2 == 0 {
        return None;
    }
    let den: i128 = 3 * a2;
    let cx: i128 = trunc_div_i128(wx, den);
    let cy: i128 = trunc_div_i128(wy, den);
    if cx >= -180_000_000 && cx <= 180_000_000 && cy >= -90_000_000 && cy <= 90_000_000 {
        Some(Coordinate { lon_micro: cx as i64, lat_micro: cy as i64 })
    } else {
        None
    }
}

} // verus!
