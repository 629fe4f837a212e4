use vstd::prelude::*;

pub mod combine;
pub mod fetch;
pub mod geometry;
pub mod output;
pub mod pipeline;
pub mod records;
pub mod spatial;
pub mod table;

verus! {

/// Bound on the magnitude of a fixed-point coordinate, generous enough for
/// micro-degree scaling of geographic latitudes and longitudes, and small
/// enough that a squared distance between two in-range points fits in i64.
pub const COORD_LIMIT: i64 = 1_000_000_000;

/// A geographic position in fixed-point form: latitude and longitude as
/// scaled integers. The scale is the caller's choice; the sentinel for a
/// missing reading is 0, mirroring the 0.0 default of the raw source.
#[derive(Clone, Copy, PartialEq, Eq, Structural, Debug)]
pub struct Coord {
    pub lon: i64,
    pub lat: i64,
}

impl Coord {
    /// Both components stay within the fixed-point range.
    pub open spec fn wf(self) -> bool {
        -COORD_LIMIT <= self.lat <= COORD_LIMIT && -COORD_LIMIT <= self.lon <= COORD_LIMIT
    }
}

} // verus!
