use vstd::prelude::*;
use vstd::seq_lib::group_seq_properties;
use vstd::multiset::Multiset;
use crate::records::ListingRecord;
use crate::COORD_LIMIT;

verus! {

/// One indexable element: a planar point `[longitude, latitude]` carrying
/// the position of its source record as payload. The field holds rstar's
/// pairing of a geometry with a payload; Verus sees the element only
/// through `entry_triple`.
#[verifier::external_body]
pub struct IndexEntry {
    inner: rstar::primitives::GeomWithData<[i64; 2], u32>,
}

/// The plain value an index element holds: `(longitude, latitude, payload)`.
/// An element is built from these three alone, so the triple names its
/// contents exactly.
pub uninterp spec fn entry_triple(e: IndexEntry) -> (i64, i64, u32);

/// A static 2D spatial index: an r-tree of the outside `rstar` crate over
/// index elements, built once by bulk load. Verus sees the tree only
/// through `index_contents` and the trusted wrappers below.
#[verifier::external_body]
pub struct SpatialIndex {
    tree: rstar::RTree<rstar::primitives::GeomWithData<[i64; 2], u32>>,
}

/// The plain contents of a spatial index, as a multiset of triples: the
/// tree keeps its elements in no caller-visible order.
pub uninterp spec fn index_contents(t: SpatialIndex) -> Multiset<(i64, i64, u32)>;

/// Relies on rstar's `GeomWithData::new`, which stores exactly the given
/// geometry and payload.
#[verifier::external_body]
fn make_entry(lon: i64, lat: i64, payload: u32) -> (e: IndexEntry)
    ensures
        entry_triple(e) == (lon, lat, payload),
{
    IndexEntry { inner: rstar::primitives::GeomWithData::new([lon, lat], payload) }
}

/// Relies on rstar's `RTree::bulk_load`, which builds a tree holding
/// exactly the given elements.
#[verifier::external_body]
fn bulk_load(elements: Vec<IndexEntry>) -> (t: SpatialIndex)
    ensures
        index_contents(t) == elements@.map_values(|e: IndexEntry| entry_triple(e)).to_multiset(),
{
    SpatialIndex { tree: rstar::RTree::bulk_load(elements.into_iter().map(|e| e.inner).collect()) }
}

/// Relies on rstar's `RTree::size`, which returns the number of elements
/// the tree holds.
#[verifier::external_body]
fn tree_size(t: &SpatialIndex) -> (n: usize)
    ensures
        n == index_contents(*t).len(),
{
    t.tree.size()
}

/// Relies on rstar's `RTree::locate_at_point`, which returns an element
/// whose point geometry equals the query point, or `None` when the tree
/// holds no such element. The coordinate bound keeps rstar's squared
/// distances within i64.
#[verifier::external_body]
fn locate_entry(t: &SpatialIndex, lon: i64, lat: i64) -> (r: Option<u32>)
    requires
        -COORD_LIMIT <= lon <= COORD_LIMIT,
        -COORD_LIMIT <= lat <= COORD_LIMIT,
        forall|v: (i64, i64, u32)| index_contents(*t).contains(v) ==> -COORD_LIMIT <= v.0
            <= COORD_LIMIT && -COORD_LIMIT <= v.1 <= COORD_LIMIT,
    ensures
        match r {
            Option::Some(p) => index_contents(*t).contains((lon, lat, p)),
            Option::None => forall|p: u32| !index_contents(*t).contains((lon, lat, p)),
        },
{
    t.tree.locate_at_point([lon, lat]).map(|e| e.data)
}

/// The indexable entries of a record sequence, in record order: one triple
/// `(longitude, latitude, position)` per record whose coordinates are both
/// away from the 0 sentinel; records where either coordinate is 0 are
/// skipped.
pub open spec fn entry_seq(records: Seq<ListingRecord>) -> Seq<(i64, i64, u32)>
    decreases records.len(),
{
    if records.len() == 0 {
        Seq::empty()
    } else {
        entry_seq(records.drop_last()) + (if records.last().longitude != 0
            && records.last().latitude != 0 {
            seq![(records.last().longitude, records.last().latitude, (records.len() - 1) as u32)]
        } else {
            Seq::empty()
        })
    }
}

impl SpatialIndex {
    /// The indexed triples, as a multiset.
    pub open spec fn contents(self) -> Multiset<(i64, i64, u32)> {
        index_contents(self)
    }

    /// Every indexed coordinate is in range.
    pub open spec fn wf(self) -> bool {
        forall|v: (i64, i64, u32)| self.contents().contains(v) ==> -COORD_LIMIT <= v.0
            <= COORD_LIMIT && -COORD_LIMIT <= v.1 <= COORD_LIMIT
    }

    /// Bulk-builds the index over all records whose coordinates are not the
    /// 0 sentinel. A record with latitude 0 or longitude 0 is excluded even
    /// if the other coordinate is a legitimate reading.
    pub fn build(records: &Vec<ListingRecord>) -> (idx: SpatialIndex)
        requires
            records@.len() <= u32::MAX,
            forall|i: int| 0 <= i < records@.len() ==> -COORD_LIMIT
                <= (#[trigger] records@[i]).longitude <= COORD_LIMIT && -COORD_LIMIT
                <= records@[i].latitude <= COORD_LIMIT,
        ensures
            idx.contents() == entry_seq(records@).to_multiset(),
            idx.wf(),
    {
        broadcast use group_seq_properties;

        let n = records.len();
        let mut elements: Vec<IndexEntry> = Vec::new();
        let mut i: usize = 0;
        while i < n
            invariant
                n == records@.len(),
                n <= u32::MAX,
                i <= n,
                forall|k: int| 0 <= k < records@.len() ==> -COORD_LIMIT
                    <= (#[trigger] records@[k]).longitude <= COORD_LIMIT && -COORD_LIMIT
                    <= records@[k].latitude <= COORD_LIMIT,
                elements@.map_values(|e: IndexEntry| entry_triple(e)) == entry_seq(
                    records@.take(i as int),
                ),
            decreases n - i,
        {
            let lon = records[i].longitude;
            let lat = records[i].latitude;
            proof {
                assert(records@.take(i + 1).drop_last() =~= records@.take(i as int));
                assert(records@.take(i + 1).last() == records@[i as int]);
            }
            if lon != 0 && lat != 0 {
                let e = make_entry(lon, lat, i as u32);
                elements.push(e);
                proof {
                    assert(elements@.map_values(|e: IndexEntry| entry_triple(e)) =~= entry_seq(
                        records@.take(i + 1),
                    ));
                }
            } else {
                proof {
                    assert(elements@.map_values(|e: IndexEntry| entry_triple(e)) =~= entry_seq(
                        records@.take(i + 1),
                    ));
                }
            }
            i = i + 1;
        }
        proof {
            assert(records@.take(n as int) =~= records@);
        }
        let ghost triples = elements@.map_values(|e: IndexEntry| entry_triple(e));
        let idx = bulk_load(elements);
        proof {
            lemma_entry_seq_members(records@);
            assert forall|v: (i64, i64, u32)| idx.contents().contains(v) implies -COORD_LIMIT
                <= v.0 <= COORD_LIMIT && -COORD_LIMIT <= v.1 <= COORD_LIMIT by {
                assert(triples.to_multiset().contains(v));
                assert(triples.contains(v));
                let k = choose|k: int| 0 <= k < triples.len() && triples[k] == v;
            }
        }
        idx
    }

    /// The number of indexed points.
    pub fn len(&self) -> (n: usize)
        ensures
            n == self.contents().len(),
    {
        tree_size(self)
    }

    /// Looks one indexed point up by its exact coordinates: the payload of
    /// an element stored at `(longitude, latitude)`, or `None` when no
    /// record was indexed there.
    pub fn locate(&self, lon: i64, lat: i64) -> (r: Option<u32>)
        requires
            self.wf(),
            -COORD_LIMIT <= lon <= COORD_LIMIT,
            -COORD_LIMIT <= lat <= COORD_LIMIT,
        ensures
            match r {
                Option::Some(p) => self.contents().contains((lon, lat, p)),
                Option::None => forall|p: u32| !self.contents().contains((lon, lat, p)),
            },
    {
        proof {
            assert forall|v: (i64, i64, u32)| index_contents(*self).contains(v) implies
                -COORD_LIMIT <= v.0 <= COORD_LIMIT && -COORD_LIMIT <= v.1 <= COORD_LIMIT by {
                assert(self.contents().contains(v));
            }
        }
        locate_entry(self, lon, lat)
    }
}

/// Every triple of `entry_seq` points back at its source record: its
/// payload is the record's position, its coordinates are that record's, and
/// neither coordinate is the 0 sentinel.
pub proof fn lemma_entry_seq_members(records: Seq<ListingRecord>)
    requires
        records.len() <= u32::MAX,
    ensures
        forall|k: int| 0 <= k < entry_seq(records).len() ==> {
            let e = #[trigger] entry_seq(records)[k];
            &&& 0 <= e.2 < records.len()
            &&& records[e.2 as int].longitude == e.0
            &&& records[e.2 as int].latitude == e.1
            &&& e.0 != 0
            &&& e.1 != 0
        },
    decreases records.len(),
{
    if records.len() > 0 {
        lemma_entry_seq_members(records.drop_last());
        assert forall|k: int| 0 <= k < entry_seq(records).len() implies {
            let e = #[trigger] entry_seq(records)[k];
            &&& 0 <= e.2 < records.len()
            &&& records[e.2 as int].longitude == e.0
            &&& records[e.2 as int].latitude == e.1
            &&& e.0 != 0
            &&& e.1 != 0
        } by {
            let prefix = entry_seq(records.drop_last());
            if k < prefix.len() {
                assert(entry_seq(records)[k] == prefix[k]);
                assert(records.drop_last()[prefix[k].2 as int] == records[prefix[k].2 as int]);
            }
        }
    }
}

/// A record on the 0 sentinel (in either coordinate) is never indexed: no
/// entry carries its position as payload, whatever coordinates are asked
/// about. Such a record is excluded here yet retained by the combiner,
/// whose null filter does not treat 0 as null.
pub proof fn lemma_sentinel_excluded(records: Seq<ListingRecord>, i: int)
    requires
        records.len() <= u32::MAX,
        0 <= i < records.len(),
        records[i].latitude == 0 || records[i].longitude == 0,
    ensures
        forall|lon: i64, lat: i64| !(#[trigger] entry_seq(records).to_multiset().contains(
            (lon, lat, i as u32),
        )),
{
    broadcast use group_seq_properties;

    lemma_entry_seq_members(records);
    assert forall|lon: i64, lat: i64| !(#[trigger] entry_seq(records).to_multiset().contains(
        (lon, lat, i as u32),
    )) by {
        if entry_seq(records).to_multiset().contains((lon, lat, i as u32)) {
            assert(entry_seq(records).contains((lon, lat, i as u32)));
            let k = choose|k: int| 0 <= k < entry_seq(records).len() && entry_seq(records)[k] == (
                lon,
                lat,
                i as u32,
            );
            assert(records[i].longitude == lon && records[i].latitude == lat);
        }
    }
}

} // verus!
