use vstd::prelude::*;

use crate::geom::{coord_in_range, copy_coords, Coordinate, Geometry, Polygon};

verus! {

/// The coordinates a geometry contributes to a bounding box.
pub open spec fn geom_coords(g: Geometry) -> Seq<Coordinate> {
    match g {
        Geometry::Point(c) => seq![c],
        Geometry::Line(v) => v@,
        Geometry::Polygon(p) => p.exterior@,
    }
}

pub open spec fn min_int(a: int, b: int) -> int {
    if a <= b {
        a
    } else {
        b
    }
}

pub open spec fn max_int(a: int, b: int) -> int {
    if a >= b {
        a
    } else {
        b
    }
}

/// An axis-aligned bounding box under construction, as
/// (min lon, min lat, max lon, max lat); the empty box holds the extremes,
/// so that any merge replaces them.
pub open spec fn empty_bounds() -> (int, int, int, int) {
    (i64::MAX as int, i64::MAX as int, i64::MIN as int, i64::MIN as int)
}

pub open spec fn merge_bounds(b: (int, int, int, int), c: Coordinate) -> (int, int, int, int) {
    (
        min_int(b.0, c.lon_micro as int),
        min_int(b.1, c.lat_micro as int),
        max_int(b.2, c.lon_micro as int),
        max_int(b.3, c.lat_micro as int),
    )
}

/// The box `init` grown by the first `n` coordinates.
pub open spec fn coords_bounds(cs: Seq<Coordinate>, n: int, init: (int, int, int, int)) -> (
    int,
    int,
    int,
    int,
)
    decreases n,
{
    if n <= 0 {
        init
    } else {
        merge_bounds(coords_bounds(cs, n - 1, init), cs[n - 1])
    }
}

/// The bounding box of every coordinate of the first `n` geometries.
pub open spec fn geoms_bounds(gs: Seq<Geometry>, n: int) -> (int, int, int, int)
    decreases n,
{
    if n <= 0 {
        empty_bounds()
    } else {
        coords_bounds(
            geom_coords(gs[n - 1]),
            geom_coords(gs[n - 1]).len() as int,
            geoms_bounds(gs, n - 1),
        )
    }
}

/// Every coordinate of every geometry stays in the coordinate range.
pub open spec fn collection_coords_wf(gs: Seq<Geometry>) -> bool {
    forall|i: int, c: int|
        0 <= i < gs.len() && 0 <= c < geom_coords(#[trigger] gs[i]).len() ==> coord_in_range(
            #[trigger] geom_coords(gs[i])[c],
        )
}

/// Some geometry of the first `n` contributes a coordinate.
pub open spec fn has_coords_upto(gs: Seq<Geometry>, n: int) -> bool {
    exists|i: int| 0 <= i < n && geom_coords(#[trigger] gs[i]).len() > 0
}

/// A box is proper when its corners are in range and ordered.
pub open spec fn bounds_proper(b: (int, int, int, int)) -> bool {
    &&& -180_000_000 <= b.0 <= b.2 <= 180_000_000
    &&& -90_000_000 <= b.1 <= b.3 <= 90_000_000
}

proof fn lemma_coords_bounds_proper(cs: Seq<Coordinate>, n: int, init: (int, int, int, int))
    requires
        0 <= n <= cs.len(),
        forall|c: int| 0 <= c < cs.len() ==> coord_in_range(#[trigger] cs[c]),
        init == empty_bounds() || bounds_proper(init),
    ensures
        n > 0 || bounds_proper(init) ==> bounds_proper(coords_bounds(cs, n, init)),
        coords_bounds(cs, n, init) == empty_bounds() || bounds_proper(coords_bounds(cs, n, init)),
    decreases n,
{
    if n > 0 {
        lemma_coords_bounds_proper(cs, n - 1, init);
    }
}

proof fn lemma_geoms_bounds_proper(gs: Seq<Geometry>, n: int)
    requires
        0 <= n <= gs.len(),
        collection_coords_wf(gs),
    ensures
        has_coords_upto(gs, n) ==> bounds_proper(geoms_bounds(gs, n)),
        geoms_bounds(gs, n) == empty_bounds() || bounds_proper(geoms_bounds(gs, n)),
    decreases n,
{
    if n > 0 {
        lemma_geoms_bounds_proper(gs, n - 1);
        lemma_coords_bounds_proper(
            geom_coords(gs[n - 1]),
            geom_coords(gs[n - 1]).len() as int,
            geoms_bounds(gs, n - 1),
        );
    }
}

/// The collection's bounding box pulled in by one hundredth of its width on
/// each side, as (min lon, min lat, max lon, max lat).
pub open spec fn shrunk_bounds(gs: Seq<Geometry>) -> (int, int, int, int) {
    let b = geoms_bounds(gs, gs.len() as int);
    let sx = (b.2 - b.0) / 100;
    let sy = (b.3 - b.1) / 100;
    (b.0 + sx, b.1 + sy, b.2 - sx, b.3 - sy)
}

/// A ring lies within the pulled-in box when its own bounding box does.
pub open spec fn within_shrunk(ext: Seq<Coordinate>, s: (int, int, int, int)) -> bool {
    let b = coords_bounds(ext, ext.len() as int, empty_bounds());
    b.0 >= s.0 && b.1 >= s.1 && b.2 <= s.2 && b.3 <= s.3
}

/// The polygons among the first `n` geometries that keep clear of the
/// collection's border, in order; every other geometry is dropped.
pub open spec fn border_filter(gs: Seq<Geometry>, n: int, s: (int, int, int, int)) -> Seq<
    Geometry,
>
    decreases n,
{
    if n <= 0 {
        Seq::empty()
    } else {
        let prev = border_filter(gs, n - 1, s);
        match gs[n - 1] {
            Geometry::Polygon(p) => if within_shrunk(p.exterior@, s) {
                prev.push(gs[n - 1])
            } else {
                prev
            },
            _ => prev,
        }
    }
}

/// Both sides are polygons over the same ring.
pub open spec fn poly_like(a: Geometry, b: Geometry) -> bool {
    match (a, b) {
        (Geometry::Polygon(pa), Geometry::Polygon(pb)) => pa.exterior@ == pb.exterior@,
        _ => false,
    }
}

/// Grows a bounding box by every coordinate of a vector.
fn merge_coords(cs: &Vec<Coordinate>, b: (i64, i64, i64, i64)) -> (r: (i64, i64, i64, i64))
    ensures
        (r.0 as int, r.1 as int, r.2 as int, r.3 as int) == coords_bounds(
            cs@,
            cs@.len() as int,
            (b.0 as int, b.1 as int, b.2 as int, b.3 as int),
        ),
{
    let mut acc = b;
    let mut i: usize = 0;
    while i < cs.len()
        invariant
            i <= cs@.len(),
            (acc.0 as int, acc.1 as int, acc.2 as int, acc.3 as int) == coords_bounds(
                cs@,
                i as int,
                (b.0 as int, b.1 as int, b.2 as int, b.3 as int),
            ),
        decreases cs@.len() - i,
    {
        let c = cs[i];
        acc = (
            if c.lon_micro < acc.0 {
                c.lon_micro
            } else {
                acc.0
            },
            if c.lat_micro < acc.1 {
                c.lat_micro
            } else {
                acc.1
            },
            if c.lon_micro > acc.2 {
                c.lon_micro
            } else {
                acc.2
            },
            if c.lat_micro > acc.3 {
                c.lat_micro
            } else {
                acc.3
            },
        );
        i = i + 1;
    }
    acc
}

/// Keeps only the polygons that sit clear of the collection's border: the
/// collection's bounding box is pulled in by one hundredth of its width and
/// height, and a polygon stays only when its own bounding box lies fully
/// within that smaller box. Non-polygon members never pass the filter.
pub fn exclude_border(collection: &Vec<Geometry>) -> (r: Vec<Geometry>)
    requires
        collection_coords_wf(collection@),
        has_coords_upto(collection@, collection@.len() as int),
    ensures
        r@.len() == border_filter(
            collection@,
            collection@.len() as int,
            shrunk_bounds(collection@),
        ).len(),
        forall|k: int|
            0 <= k < r@.len() ==> poly_like(
                #[trigger] r@[k],
                border_filter(collection@, collection@.len() as int, shrunk_bounds(collection@))[k],
            ),
{
    let n = collection.len();
    let mut acc: (i64, i64, i64, i64) = (i64::MAX, i64::MAX, i64::MIN, i64::MIN);
    let mut i: usize = 0;
    while i < n
        invariant
            collection_coords_wf(collection@),
            n == collection@.len(),
            i <= n,
            (acc.0 as int, acc.1 as int, acc.2 as int, acc.3 as int) == geoms_bounds(
                collection@,
                i as int,
            ),
        decreases n - i,
    {
        match &collection[i] {
            Geometry::Point(c) => {
                proof {
                    let init = geoms_bounds(collection@, i as int);
                    assert(geom_coords(collection@[i as int]) =~= seq![*c]);
                    assert(coords_bounds(seq![*c], 0, init) == init);
                    assert(seq![*c][0] == *c);
                    assert(coords_bounds(seq![*c], 1, init) == merge_bounds(init, *c));
                }
                let cc = *c;
                acc = (
                    if cc.lon_micro < acc.0 {
                        cc.lon_micro
                    } else {
                        acc.0
                    },
                    if cc.lat_micro < acc.1 {
                        cc.lat_micro
                    } else {
                        acc.1
                    },
                    if cc.lon_micro > acc.2 {
                        cc.lon_micro
                    } else {
                        acc.2
                    },
                    if cc.lat_micro > acc.3 {
                        cc.lat_micro
                    } else {
                        acc.3
                    },
                );
            },
            Geometry::Line(v) => {
                acc = merge_coords(v, acc);
            },
            Geometry::Polygon(p) => {
                acc = merge_coords(&p.exterior, acc);
            },
        }
        i = i + 1;
    }
    proof {
        lemma_geoms_bounds_proper(collection@, n as int);
        assert(bounds_proper(geoms_bounds(collection@, n as int)));
    }
    let width: u64 = (acc.2 - acc.0) as u64;
    let height: u64 = (acc.3 - acc.1) as u64;
    let sx: i64 = (width / 100) as i64;
    let sy: i64 = (height / 100) as i64;
    let sminx: i64 = acc.0 + sx;
    let sminy: i64 = acc.1 + sy;
    let smaxx: i64 = acc.2 - sx;
    let smaxy: i64 = acc.3 - sy;
    proof {
        assert((sminx as int, sminy as int, smaxx as int, smaxy as int) == shrunk_bounds(
            collection@,
        ));
    }
    let mut out: Vec<Geometry> = Vec::new();
    let mut i: usize = 0;
    while i < n
        invariant
            collection_coords_wf(collection@),
            n == collection@.len(),
            i <= n,
            (sminx as int, sminy as int, smaxx as int, smaxy as int) == shrunk_bounds(collection@),
            out@.len() == border_filter(
                collection@,
                i as int,
                shrunk_bounds(collection@),
            ).len(),
            forall|k: int|
                0 <= k < out@.len() ==> poly_like(
                    #[trigger] out@[k],
                    border_filter(collection@, i as int, shrunk_bounds(collection@))[k],
                ),
        decreases n - i,
    {
        let ghost prevf = border_filter(collection@, i as int, shrunk_bounds(collection@));
        match &collection[i] {
            Geometry::Polygon(p) => {
                let pb = merge_coords(&p.exterior, (i64::MAX, i64::MAX, i64::MIN, i64::MIN));
                if pb.0 >= sminx && pb.1 >= sminy && pb.2 <= smaxx && pb.3 <= smaxy {
                    let ghost prevo = out@;
                    out.push(Geometry::Polygon(Polygon::new(copy_coords(&p.exterior))));
                    proof {
                        assert(within_shrunk(p.exterior@, shrunk_bounds(collection@)));
                        assert(border_filter(collection@, i + 1, shrunk_bounds(collection@))
                            == prevf.push(collection@[i as int]));
                        assert forall|k: int| 0 <= k < out@.len() implies poly_like(
                            #[trigger] out@[k],
                            border_filter(collection@, i + 1, shrunk_bounds(collection@))[k],
                        ) by {
                            if k < prevo.len() {
                                assert(out@[k] == prevo[k]);
                                assert(prevf.push(collection@[i as int])[k] == prevf[k]);
                            } else {
                                assert(out@[k] == prevo.push(out@[prevo.len() as int])[k]);
                                assert(prevf.push(collection@[i as int])[k]
                                    == collection@[i as int]);
                            }
                        }
                    }
                } else {
                    proof {
                        assert(!within_shrunk(p.exterior@, shrunk_bounds(collection@)));
                        assert(border_filter(collection@, i + 1, shrunk_bounds(collection@))
                            == prevf);
                    }
                }
            },
            _ => {
                proof {
                    assert(border_filter(collection@, i + 1, shrunk_bounds(collection@)) == prevf);
                }
            },
        }
        i = i + 1;
    }
    out
}

} // verus!
