use vstd::prelude::*;
use vstd::arithmetic::div_mod::{lemma_div_by_multiple, lemma_div_is_ordered, lemma_div_pos_is_pos};
use vstd::string::StringExecFns;
use crate::{Coord, COORD_LIMIT};

verus! {

/// One geographic feature's geometry, reduced to the shapes the pipeline
/// understands. Ring vertices are fixed-point coordinates; an unsupported
/// kind keeps only its type tag.
pub enum GeometryShape {
    Point(Coord),
    Polygon(Vec<Vec<Coord>>),
    MultiPolygon(Vec<Vec<Vec<Coord>>>),
    Unsupported(String),
}

/// One feature of a feature collection: a geometry, or none at all.
pub struct Feature {
    pub geometry: Option<GeometryShape>,
}

/// One feature reduced to a representative point. Both coordinates are null
/// when the feature had no geometry or an unsupported kind; the tag is null
/// only when the geometry itself was absent.
pub struct GeometryRow {
    pub geometry_type: Option<String>,
    pub latitude: Option<i64>,
    pub longitude: Option<i64>,
}

/// Sum of the latitudes of a vertex sequence.
pub open spec fn sum_lat(ring: Seq<Coord>) -> int
    decreases ring.len(),
{
    if ring.len() == 0 {
        0
    } else {
        sum_lat(ring.drop_last()) + ring.last().lat
    }
}

/// Sum of the longitudes of a vertex sequence.
pub open spec fn sum_lon(ring: Seq<Coord>) -> int
    decreases ring.len(),
{
    if ring.len() == 0 {
        0
    } else {
        sum_lon(ring.drop_last()) + ring.last().lon
    }
}

/// Integer division truncating toward zero, for a positive divisor: the
/// rounding a quotient of sign-split magnitudes produces.
pub open spec fn div_trunc(a: int, b: int) -> int {
    if a >= 0 {
        a / b
    } else {
        -((-a) / b)
    }
}

/// The unweighted vertex mean of a ring's latitudes.
pub open spec fn mean_lat(ring: Seq<Coord>) -> int {
    div_trunc(sum_lat(ring), ring.len() as int)
}

/// The unweighted vertex mean of a ring's longitudes.
pub open spec fn mean_lon(ring: Seq<Coord>) -> int {
    div_trunc(sum_lon(ring), ring.len() as int)
}

/// Every vertex of the sequence is within the fixed-point range.
pub open spec fn ring_wf(ring: Seq<Coord>) -> bool {
    forall|i: int| 0 <= i < ring.len() ==> (#[trigger] ring[i]).wf()
}

/// A feature the normalizer accepts: the ring its reduction reads (the
/// first ring, of the first polygon for a multipolygon) exists, is
/// non-empty, and has in-range vertices. Other rings and polygons are
/// ignored and unconstrained.
pub open spec fn feature_wf(f: Feature) -> bool {
    match f.geometry {
        Option::None => true,
        Option::Some(GeometryShape::Point(_)) => true,
        Option::Some(GeometryShape::Polygon(rings)) => rings@.len() >= 1 && rings@[0]@.len() >= 1
            && ring_wf(rings@[0]@),
        Option::Some(GeometryShape::MultiPolygon(polys)) => polys@.len() >= 1
            && polys@[0]@.len() >= 1 && polys@[0]@[0]@.len() >= 1 && ring_wf(polys@[0]@[0]@),
        Option::Some(GeometryShape::Unsupported(_)) => true,
    }
}

/// The representative latitude of a feature: the point's own latitude, the
/// vertex mean of a polygon's first ring, the vertex mean of the first ring
/// of a multipolygon's first polygon, and null otherwise.
pub open spec fn rep_lat(f: Feature) -> Option<int> {
    match f.geometry {
        Option::None => Option::None,
        Option::Some(GeometryShape::Point(c)) => Option::Some(c.lat as int),
        Option::Some(GeometryShape::Polygon(rings)) => Option::Some(mean_lat(rings@[0]@)),
        Option::Some(GeometryShape::MultiPolygon(polys)) => Option::Some(
            mean_lat(polys@[0]@[0]@),
        ),
        Option::Some(GeometryShape::Unsupported(_)) => Option::None,
    }
}

/// The representative longitude of a feature, chosen as `rep_lat` is.
pub open spec fn rep_lon(f: Feature) -> Option<int> {
    match f.geometry {
        Option::None => Option::None,
        Option::Some(GeometryShape::Point(c)) => Option::Some(c.lon as int),
        Option::Some(GeometryShape::Polygon(rings)) => Option::Some(mean_lon(rings@[0]@)),
        Option::Some(GeometryShape::MultiPolygon(polys)) => Option::Some(
            mean_lon(polys@[0]@[0]@),
        ),
        Option::Some(GeometryShape::Unsupported(_)) => Option::None,
    }
}

/// The row's tag names the feature's geometry kind: the kind's name for a
/// supported kind, the feature's own tag for an unsupported one, null for
/// absent geometry.
pub open spec fn tag_matches(f: Feature, tag: Option<String>) -> bool {
    match f.geometry {
        Option::None => tag is None,
        Option::Some(GeometryShape::Point(_)) => tag matches Option::Some(s) && s@ == "Point"@,
        Option::Some(GeometryShape::Polygon(_)) => tag matches Option::Some(s) && s@
            == "Polygon"@,
        Option::Some(GeometryShape::MultiPolygon(_)) => tag matches Option::Some(s) && s@
            == "MultiPolygon"@,
        Option::Some(GeometryShape::Unsupported(t)) => tag matches Option::Some(s) && s@ == t@,
    }
}

/// An optional fixed-point value holds exactly the given optional integer.
pub open spec fn opt_coord_is(o: Option<i64>, v: Option<int>) -> bool {
    match (o, v) {
        (Option::Some(a), Option::Some(b)) => a == b,
        (Option::None, Option::None) => true,
        _ => false,
    }
}

/// The row is the feature's reduction: matching tag and the representative
/// point of `rep_lat` / `rep_lon`.
pub open spec fn row_of_feature(f: Feature, row: GeometryRow) -> bool {
    &&& tag_matches(f, row.geometry_type)
    &&& opt_coord_is(row.latitude, rep_lat(f))
    &&& opt_coord_is(row.longitude, rep_lon(f))
}

/// A ring's coordinate sums stay within `len * COORD_LIMIT` when every
/// vertex is in range.
proof fn lemma_sum_bounds(ring: Seq<Coord>)
    requires
        ring_wf(ring),
    ensures
        -(ring.len() * COORD_LIMIT as int) <= sum_lat(ring) <= ring.len() * COORD_LIMIT as int,
        -(ring.len() * COORD_LIMIT as int) <= sum_lon(ring) <= ring.len() * COORD_LIMIT as int,
    decreases ring.len(),
{
    if ring.len() > 0 {
        assert(ring_wf(ring.drop_last()));
        lemma_sum_bounds(ring.drop_last());
    }
}

/// Truncating division of a bounded sum by the vertex count, exactly as
/// `div_trunc` states it.
fn div_vertex_mean(sum: i128, count: usize) -> (q: i64)
    requires
        count >= 1,
        -(count * COORD_LIMIT as int) <= sum <= count * COORD_LIMIT as int,
    ensures
        q == div_trunc(sum as int, count as int),
        -COORD_LIMIT <= q <= COORD_LIMIT,
{
    let c: u128 = count as u128;
    if sum >= 0 {
        let m: u128 = sum as u128;
        let d: u128 = m / c;
        proof {
            lemma_div_pos_is_pos(m as int, c as int);
            lemma_div_is_ordered(m as int, COORD_LIMIT as int * c as int, c as int);
            lemma_div_by_multiple(COORD_LIMIT as int, c as int);
        }
        d as i64
    } else {
        let m: u128 = (-sum) as u128;
        let d: u128 = m / c;
        proof {
            lemma_div_pos_is_pos(m as int, c as int);
            lemma_div_is_ordered(m as int, COORD_LIMIT as int * c as int, c as int);
            lemma_div_by_multiple(COORD_LIMIT as int, c as int);
        }
        -(d as i64)
    }
}

/// The unweighted vertex mean of a ring, as a fixed-point pair
/// `(latitude, longitude)`.
fn ring_mean(ring: &Vec<Coord>) -> (m: (i64, i64))
    requires
        ring@.len() >= 1,
        ring_wf(ring@),
    ensures
        m.0 == mean_lat(ring@),
        m.1 == mean_lon(ring@),
        -COORD_LIMIT <= m.0 <= COORD_LIMIT,
        -COORD_LIMIT <= m.1 <= COORD_LIMIT,
{
    let n = ring.len();
    let mut acc_lat: i128 = 0;
    let mut acc_lon: i128 = 0;
    let mut i: usize = 0;
    while i < n
        invariant
            n == ring@.len(),
            i <= n,
            ring_wf(ring@),
            acc_lat == sum_lat(ring@.take(i as int)),
            acc_lon == sum_lon(ring@.take(i as int)),
            -(i * COORD_LIMIT as int) <= acc_lat <= i * COORD_LIMIT as int,
            -(i * COORD_LIMIT as int) <= acc_lon <= i * COORD_LIMIT as int,
        decreases n - i,
    {
        let c = ring[i];
        proof {
            assert(ring@.take(i + 1).drop_last() =~= ring@.take(i as int));
            assert(ring@.take(i + 1).last() == ring@[i as int]);
            assert(c.wf());
        }
        acc_lat = acc_lat + c.lat as i128;
        acc_lon = acc_lon + c.lon as i128;
        i = i + 1;
    }
    proof {
        assert(ring@.take(n as int) =~= ring@);
    }
    let lat = div_vertex_mean(acc_lat, n);
    let lon = div_vertex_mean(acc_lon, n);
    (lat, lon)
}

/// Reduces one feature to its row.
pub fn normalize_feature(f: Feature) -> (row: GeometryRow)
    requires
        feature_wf(f),
    ensures
        row_of_feature(f, row),
{
    match f.geometry {
        Option::None => GeometryRow {
            geometry_type: Option::None,
            latitude: Option::None,
            longitude: Option::None,
        },
        Option::Some(GeometryShape::Point(c)) => GeometryRow {
            geometry_type: Option::Some(String::from_str("Point")),
            latitude: Option::Some(c.lat),
            longitude: Option::Some(c.lon),
        },
        Option::Some(GeometryShape::Polygon(rings)) => {
            let (lat, lon) = ring_mean(&rings[0]);
            GeometryRow {
                geometry_type: Option::Some(String::from_str("Polygon")),
                latitude: Option::Some(lat),
                longitude: Option::Some(lon),
            }
        },
        Option::Some(GeometryShape::MultiPolygon(polys)) => {
            let (lat, lon) = ring_mean(&polys[0][0]);
            GeometryRow {
                geometry_type: Option::Some(String::from_str("MultiPolygon")),
                latitude: Option::Some(lat),
                longitude: Option::Some(lon),
            }
        },
        Option::Some(GeometryShape::Unsupported(t)) => GeometryRow {
            geometry_type: Option::Some(t),
            latitude: Option::None,
            longitude: Option::None,
        },
    }
}

/// Reduces a whole feature collection: exactly one row per feature, in
/// input order, whatever mix of supported and unsupported kinds it holds.
pub fn normalize_features(features: Vec<Feature>) -> (rows: Vec<GeometryRow>)
    requires
        forall|i: int| 0 <= i < features@.len() ==> feature_wf(#[trigger] features@[i]),
    ensures
        rows@.len() == features@.len(),
        forall|i: int| 0 <= i < features@.len() ==> row_of_feature(
            features@[i],
            #[trigger] rows@[i],
        ),
{
    let ghost feats_view = features@;
    let n = features.len();
    let mut rows: Vec<GeometryRow> = Vec::new();
    let mut rest = features;
    let mut taken: usize = 0;
    while taken < n
        invariant
            n == feats_view.len(),
            rest@ == feats_view.skip(taken as int),
            taken <= n,
            rows@.len() == taken,
            forall|i: int| 0 <= i < feats_view.len() ==> feature_wf(#[trigger] feats_view[i]),
            forall|i: int| 0 <= i < taken ==> row_of_feature(feats_view[i], #[trigger] rows@[i]),
        decreases n - taken,
    {
        let first = rest.remove(0);
        assert(first == feats_view[taken as int]);
        rows.push(normalize_feature(first));
        taken = taken + 1;
        proof {
            assert(rest@ =~= feats_view.skip(taken as int));
        }
    }
    rows
}

} // verus!
