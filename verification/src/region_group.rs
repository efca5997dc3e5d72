use vstd::prelude::*;
use vstd::string::StringExecFns;

use crate::geom::{centroid, centroid_spec, ring_wf, Coordinate, Geometry, Polygon};

verus! {

/// The decimal digit `d` as a character.
pub open spec fn digit_char(d: int) -> char {
    if d == 0 {
        '0'
    } else if d == 1 {
        '1'
    } else if d == 2 {
        '2'
    } else if d == 3 {
        '3'
    } else if d == 4 {
        '4'
    } else if d == 5 {
        '5'
    } else if d == 6 {
        '6'
    } else if d == 7 {
        '7'
    } else if d == 8 {
        '8'
    } else {
        '9'
    }
}

/// The decimal digits of `n`, most significant first, no leading zeros.
pub open spec fn spec_decimal(n: nat) -> Seq<char>
    decreases n,
{
    if n < 10 {
        seq![digit_char(n as int)]
    } else {
        spec_decimal(n / 10).push(digit_char((n % 10) as int))
    }
}

/// The identifier of the region at position `i` of group `name`:
/// the group name, a dash, and the decimal position.
pub open spec fn id_spec(name: Seq<char>, i: int) -> Seq<char> {
    name + seq!['-'] + spec_decimal(i as nat)
}

proof fn lemma_decimal_len(n: nat)
    ensures
        spec_decimal(n).len() >= 1,
        n < 10 <==> spec_decimal(n).len() == 1,
    decreases n,
{
    if n >= 10 {
        lemma_decimal_len(n / 10);
    }
}

/// Distinct numbers have distinct decimal digit strings.
proof fn lemma_decimal_injective(a: nat, b: nat)
    requires
        spec_decimal(a) == spec_decimal(b),
    ensures
        a == b,
    decreases a,
{
    lemma_decimal_len(a);
    lemma_decimal_len(b);
    if a < 10 && b < 10 {
        assert(seq![digit_char(a as int)][0] == digit_char(a as int));
        assert(seq![digit_char(b as int)][0] == digit_char(b as int));
        assert(digit_char(a as int) == digit_char(b as int));
    } else if a >= 10 && b >= 10 {
        let pa = spec_decimal(a / 10);
        let pb = spec_decimal(b / 10);
        let ca = digit_char((a % 10) as int);
        let cb = digit_char((b % 10) as int);
        assert(pa.push(ca).last() == ca);
        assert(pb.push(cb).last() == cb);
        assert(ca == cb);
        assert(a % 10 == b % 10);
        assert(pa.len() == pb.len());
        assert forall|k: int| 0 <= k < pa.len() implies pa[k] == pb[k] by {
            assert(pa.push(ca)[k] == pa[k]);
            assert(pb.push(cb)[k] == pb[k]);
        }
        assert(pa =~= pb);
        lemma_decimal_injective(a / 10, b / 10);
    } else if a < 10 {
        assert(spec_decimal(b).len() == spec_decimal(b / 10).len() + 1);
    } else {
        assert(spec_decimal(a).len() == spec_decimal(a / 10).len() + 1);
    }
}

/// Within one group, distinct positions give distinct identifiers.
pub proof fn lemma_id_injective(name: Seq<char>, i: int, j: int)
    requires
        0 <= i,
        0 <= j,
        id_spec(name, i) == id_spec(name, j),
    ensures
        i == j,
{
    let p = name + seq!['-'];
    let di = spec_decimal(i as nat);
    let dj = spec_decimal(j as nat);
    assert((p + di).len() == (p + dj).len());
    assert(di.len() == dj.len());
    assert forall|k: int| 0 <= k < di.len() implies di[k] == dj[k] by {
        assert((p + di)[p.len() + k] == di[k]);
        assert((p + dj)[p.len() + k] == dj[k]);
    }
    assert(di =~= dj);
    lemma_decimal_injective(i as nat, j as nat);
}

/// One of ten one-digit strings.
fn digit_str(d: usize) -> (r: &'static str)
    requires
        d < 10,
    ensures
        r@ == seq![digit_char(d as int)],
{
    if d == 0 {
        proof {
            reveal_strlit("0");
        }
        let r = "0";
        proof {
            assert(r@ =~= seq![digit_char(d as int)]);
        }
        r
    } else if d == 1 {
        proof {
            reveal_strlit("1");
        }
        let r = "1";
        proof {
            assert(r@ =~= seq![digit_char(d as int)]);
        }
        r
    } else if d == 2 {
        proof {
            reveal_strlit("2");
        }
        let r = "2";
        proof {
            assert(r@ =~= seq![digit_char(d as int)]);
        }
        r
    } else if d == 3 {
        proof {
            reveal_strlit("3");
        }
        let r = "3";
        proof {
            assert(r@ =~= seq![digit_char(d as int)]);
        }
        r
    } else if d == 4 {
        proof {
            reveal_strlit("4");
        }
        let r = "4";
        proof {
            assert(r@ =~= seq![digit_char(d as int)]);
        }
        r
    } else if d == 5 {
        proof {
            reveal_strlit("5");
        }
        let r = "5";
        proof {
            assert(r@ =~= seq![digit_char(d as int)]);
        }
        r
    } else if d == 6 {
        proof {
            reveal_strlit("6");
        }
        let r = "6";
        proof {
            assert(r@ =~= seq![digit_char(d as int)]);
        }
        r
    } else if d == 7 {
        proof {
            reveal_strlit("7");
        }
        let r = "7";
        proof {
            assert(r@ =~= seq![digit_char(d as int)]);
        }
        r
    } else if d == 8 {
        proof {
            reveal_strlit("8");
        }
        let r = "8";
        proof {
            assert(r@ =~= seq![digit_char(d as int)]);
        }
        r
    } else {
        proof {
            reveal_strlit("9");
        }
        let r = "9";
        proof {
            assert(r@ =~= seq![digit_char(d as int)]);
        }
        r
    }
}

/// The decimal digits of `n` as a string.
fn decimal_string(n: usize) -> (r: String)
    ensures
        r@ == spec_decimal(n as nat),
    decreases n,
{
    if n < 10 {
        String::from_str(digit_str(n))
    } else {
        let mut prefix = decimal_string(n / 10);
        prefix.append(digit_str(n % 10));
        prefix
    }
}

/// The identifier of position `i` in group `name`.
fn region_id(name: &String, i: usize) -> (r: String)
    ensures
        r@ == id_spec(name@, i as int),
{
    let mut s: String = name.clone();
    proof {
        reveal_strlit("-");
        assert("-"@ =~= seq!['-']);
    }
    s.append("-");
    let digits = decimal_string(i);
    s.append(digits.as_str());
    s
}

/// Every polygon of the collection has a ring the centroid arithmetic
/// accepts.
pub open spec fn collection_wf(gs: Seq<Geometry>) -> bool {
    forall|i: int|
        0 <= i < gs.len() ==> match #[trigger] gs[i] {
            Geometry::Polygon(p) => ring_wf(p.exterior@),
            _ => true,
        }
}

/// The regions the first `n` entries of a collection yield, in order: for
/// each polygon entry whose centroid exists, its ring, its identifier, its
/// centroid and its position in the collection.
pub open spec fn regions_of(name: Seq<char>, gs: Seq<Geometry>, n: int) -> Seq<
    (Seq<Coordinate>, Seq<char>, Coordinate, int),
>
    decreases n,
{
    if n <= 0 {
        Seq::empty()
    } else {
        let prev = regions_of(name, gs, n - 1);
        match gs[n - 1] {
            Geometry::Polygon(p) => match centroid_spec(p.exterior@) {
                Some(c) => prev.push((p.exterior@, id_spec(name, n - 1), c, n - 1)),
                None => prev,
            },
            _ => prev,
        }
    }
}

proof fn lemma_regions_of_props(name: Seq<char>, gs: Seq<Geometry>, n: int)
    ensures
        forall|k: int|
            0 <= k < regions_of(name, gs, n).len() ==> {
                let rec = #[trigger] regions_of(name, gs, n)[k];
                0 <= rec.3 < n && rec.1 == id_spec(name, rec.3)
            },
        forall|k1: int, k2: int|
            0 <= k1 < k2 < regions_of(name, gs, n).len() ==> #[trigger] regions_of(
                name,
                gs,
                n,
            )[k1].3 < #[trigger] regions_of(name, gs, n)[k2].3,
    decreases n,
{
    if n > 0 {
        lemma_regions_of_props(name, gs, n - 1);
        let prev = regions_of(name, gs, n - 1);
        let cur = regions_of(name, gs, n);
        match gs[n - 1] {
            Geometry::Polygon(p) => {
                match centroid_spec(p.exterior@) {
                    Some(c) => {
                        let rec = (p.exterior@, id_spec(name, n - 1), c, n - 1);
                        assert(cur == prev.push(rec));
                        assert forall|k: int| 0 <= k < cur.len() implies {
                            let r = #[trigger] cur[k];
                            0 <= r.3 < n && r.1 == id_spec(name, r.3)
                        } by {
                            if k < prev.len() {
                                assert(prev.push(rec)[k] == prev[k]);
                            } else {
                                assert(prev.push(rec)[k] == rec);
                            }
                        }
                        assert forall|k1: int, k2: int|
                            0 <= k1 < k2 < cur.len() implies #[trigger] cur[k1].3
                            < #[trigger] cur[k2].3 by {
                            assert(prev.push(rec)[k1] == prev[k1]);
                            if k2 < prev.len() {
                                assert(prev.push(rec)[k2] == prev[k2]);
                            } else {
                                assert(prev.push(rec)[k2] == rec);
                            }
                        }
                    },
                    None => {
                        assert(cur == prev);
                    },
                }
            },
            _ => {
                assert(cur == prev);
            },
        }
    }
}

/// No two regions of one group share an identifier.
pub proof fn lemma_region_ids_distinct(name: Seq<char>, gs: Seq<Geometry>, n: int)
    ensures
        forall|k1: int, k2: int|
            0 <= k1 < k2 < regions_of(name, gs, n).len() ==> #[trigger] regions_of(
                name,
                gs,
                n,
            )[k1].1 != #[trigger] regions_of(name, gs, n)[k2].1,
{
    lemma_regions_of_props(name, gs, n);
    assert forall|k1: int, k2: int|
        0 <= k1 < k2 < regions_of(name, gs, n).len() implies #[trigger] regions_of(
        name,
        gs,
        n,
    )[k1].1 != #[trigger] regions_of(name, gs, n)[k2].1 by {
        let r1 = regions_of(name, gs, n)[k1];
        let r2 = regions_of(name, gs, n)[k2];
        if r1.1 == r2.1 {
            lemma_id_injective(name, r1.3, r2.3);
        }
    }
}

/// A named group of regions: each polygon of the source collection, paired
/// with its stable identifier and its centroid. Polygons whose centroid the
/// formula cannot produce are dropped; non-polygon members are ignored.
pub struct RegionGroup {
    pub name: String,
    pub geometries: Vec<(Polygon, String, Coordinate)>,
}

/// The exec geometry list carries exactly the records of `regions_of`.
pub open spec fn group_matches(
    geometries: Seq<(Polygon, String, Coordinate)>,
    records: Seq<(Seq<Coordinate>, Seq<char>, Coordinate, int)>,
) -> bool {
    &&& geometries.len() == records.len()
    &&& forall|k: int|
        0 <= k < records.len() ==> {
            let g = #[trigger] geometries[k];
            let rec = records[k];
            g.0.exterior@ == rec.0 && g.1@ == rec.1 && g.2 == rec.2
        }
}

impl RegionGroup {
    /// Walks the collection in order, keeps the polygons whose centroid the
    /// centroid formula yields, and assigns each the identifier formed from
    /// the group name and its position in the collection.
    pub fn new(name: String, collection: Vec<Geometry>) -> (r: RegionGroup)
        requires
            collection_wf(collection@),
        ensures
            r.name == name,
            group_matches(r.geometries@, regions_of(name@, collection@, collection@.len() as int)),
    {
        let mut geometries: Vec<(Polygon, String, Coordinate)> = Vec::new();
        let n = collection.len();
        let mut i: usize = 0;
        while i < n
            invariant
                collection_wf(collection@),
                n == collection@.len(),
                i <= n,
                group_matches(geometries@, regions_of(name@, collection@, i as int)),
            decreases n - i,
        {
            match &collection[i] {
                Geometry::Polygon(p) => {
                    match centroid(p) {
                        Some(c) => {
                            let id = region_id(&name, i);
                            let ring = crate::geom::copy_coords(&p.exterior);
                            geometries.push((Polygon::new(ring), id, c));
                        },
                        None => {},
                    }
                },
                _ => {},
            }
            i = i + 1;
        }
        RegionGroup { name, geometries }
    }

    /// The `(polygon, id, centroid)` triples of this group, in order.
    pub fn geometries(&self) -> (r: &Vec<(Polygon, String, Coordinate)>)
        ensures
            r@ == self.geometries@,
    {
        &self.geometries
    }
}

} // verus!
