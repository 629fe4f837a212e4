use vstd::prelude::*;

verus! {

/// One raw listing object as fetched from the remote market-data source.
/// Every field is optional: absence is what the normalizer gives defaults to.
/// Numeric fields are fixed-point integers scaled at the boundary.
pub struct RawListing {
    pub id: Option<String>,
    pub address: Option<String>,
    pub latitude: Option<i64>,
    pub longitude: Option<i64>,
    pub price: Option<i64>,
    pub bedrooms: Option<i64>,
    pub bathrooms: Option<i64>,
    pub square_footage: Option<i64>,
    pub property_type: Option<String>,
    pub status: Option<String>,
    pub zip_code: Option<String>,
}

/// One normalized listing. Identity fields are plain strings (empty when the
/// source had none); coordinates are required, with 0 as the sentinel for a
/// missing reading; every other field keeps `None` for "unknown", which is
/// distinct from zero.
pub struct ListingRecord {
    pub id: String,
    pub address: String,
    pub latitude: i64,
    pub longitude: i64,
    pub price: Option<i64>,
    pub bedrooms: Option<i64>,
    pub bathrooms: Option<i64>,
    pub square_footage: Option<i64>,
    pub property_type: Option<String>,
    pub status: Option<String>,
    pub zip_code: Option<String>,
}

/// The view of an optional string, with absence as the empty sequence.
pub open spec fn str_or_empty(o: Option<String>) -> Seq<char> {
    match o {
        Option::Some(s) => s@,
        Option::None => Seq::empty(),
    }
}

/// The value of an optional coordinate, with absence as the 0 sentinel.
pub open spec fn coord_or_sentinel(o: Option<i64>) -> i64 {
    match o {
        Option::Some(v) => v,
        Option::None => 0,
    }
}

/// The views of two optional strings agree.
pub open spec fn opt_str_eq(a: Option<String>, b: Option<String>) -> bool {
    match (a, b) {
        (Option::Some(x), Option::Some(y)) => x@ == y@,
        (Option::None, Option::None) => true,
        _ => false,
    }
}

/// How one normalized record relates to the raw object it came from:
/// absent identity fields become empty strings, absent coordinates become
/// the 0 sentinel, and every nullable field is carried over unchanged.
pub open spec fn normalizes_raw(raw: RawListing, rec: ListingRecord) -> bool {
    &&& rec.id@ == str_or_empty(raw.id)
    &&& rec.address@ == str_or_empty(raw.address)
    &&& rec.latitude == coord_or_sentinel(raw.latitude)
    &&& rec.longitude == coord_or_sentinel(raw.longitude)
    &&& rec.price == raw.price
    &&& rec.bedrooms == raw.bedrooms
    &&& rec.bathrooms == raw.bathrooms
    &&& rec.square_footage == raw.square_footage
    &&& opt_str_eq(rec.property_type, raw.property_type)
    &&& opt_str_eq(rec.status, raw.status)
    &&& opt_str_eq(rec.zip_code, raw.zip_code)
}

/// Normalizes one raw listing object, applying the documented defaults.
pub fn normalize_record(raw: RawListing) -> (rec: ListingRecord)
    ensures
        normalizes_raw(raw, rec),
{
    let id = match raw.id {
        Option::Some(s) => s,
        Option::None => String::new(),
    };
    let address = match raw.address {
        Option::Some(s) => s,
        Option::None => String::new(),
    };
    let latitude = match raw.latitude {
        Option::Some(v) => v,
        Option::None => 0,
    };
    let longitude = match raw.longitude {
        Option::Some(v) => v,
        Option::None => 0,
    };
    ListingRecord {
        id,
        address,
        latitude,
        longitude,
        price: raw.price,
        bedrooms: raw.bedrooms,
        bathrooms: raw.bathrooms,
        square_footage: raw.square_footage,
        property_type: raw.property_type,
        status: raw.status,
        zip_code: raw.zip_code,
    }
}

/// Normalizes a whole batch, one record per raw object, in input order.
pub fn normalize_records(raw: Vec<RawListing>) -> (out: Vec<ListingRecord>)
    ensures
        out@.len() == raw@.len(),
        forall|i: int| 0 <= i < raw@.len() ==> #[trigger] normalizes_raw(raw@[i], out@[i]),
{
    let ghost raw_view = raw@;
    let n = raw.len();
    let mut out: Vec<ListingRecord> = Vec::new();
    let mut rest = raw;
    let mut taken: usize = 0;
    while taken < n
        invariant
            n == raw_view.len(),
            rest@ == raw_view.skip(taken as int),
            taken <= n,
            out@.len() == taken,
            forall|i: int| 0 <= i < taken ==> #[trigger] normalizes_raw(raw_view[i], out@[i]),
        decreases n - taken,
    {
        let first = rest.remove(0);
        assert(first == raw_view[taken as int]);
        out.push(normalize_record(first));
        taken = taken + 1;
        proof {
            assert(rest@ =~= raw_view.skip(taken as int));
        }
    }
    out
}

} // verus!
