//! Matching of genomic regions to gene annotations.
//!
//! The zone classifiers (`tss`, `tts`) decide which flanking zones a region
//! occupies relative to an anchor exon; the driver (`overlap`) walks genes
//! and transcripts and emits raw candidates; the resolution step (`rules`)
//! collapses them to the requested report level.

pub mod overlap;
pub mod rules;
pub mod tss;
pub mod tts;

pub use tss::check_tss;
pub use tts::check_tts;

use vstd::prelude::*;
use crate::pct::Pct;
use crate::types::{coord_ok, Area, COORD_LIMIT};

verus! {

/// One row of a zone classification: the zone label, the share of the
/// region falling in the zone, and the share of the zone's own width
/// covered (or the sentinel for unbounded zones).
#[derive(Debug, Clone, Copy)]
pub struct ZoneHit {
    pub area: Area,
    pub pctg_region: Pct,
    pub pctg_area: Pct,
}

/// Mirrored coordinates stay within three times the plain coordinate limit.
pub open spec fn mirrored_ok(x: int) -> bool {
    -3 * (COORD_LIMIT as int) <= x <= 3 * (COORD_LIMIT as int)
}

/// Zone edges, a width or two below a mirrored coordinate, stay within
/// four times the plain coordinate limit.
pub open spec fn zone_edge_ok(x: int) -> bool {
    -4 * (COORD_LIMIT as int) <= x <= 4 * (COORD_LIMIT as int)
}

/// Length of the intersection of the zone `[lo, hi]` with the region
/// `[rs, re]`; not positive when they are disjoint.
pub open spec fn spec_zone_overlap(lo: int, hi: int, rs: int, re: int) -> int {
    vstd::math::min(hi, re) - vstd::math::max(lo, rs) + 1
}

/// A classification row in spec form: the zone, the overlap length, and the
/// zone width to normalize against (not positive when the zone is
/// unbounded, standing for the sentinel).
pub type SpecZoneRow = (Area, int, int);

/// A bounded zone contributes a row exactly when its overlap is positive.
pub open spec fn spec_zone_row(area: Area, overlap: int, width: int) -> Seq<SpecZoneRow> {
    if overlap >= 1 {
        seq![(area, overlap, width)]
    } else {
        Seq::empty()
    }
}

/// Whether the executable rows `r` realize the spec rows `s` for a region
/// of length `len`: same zones in the same order, each region percentage
/// the exact fraction `overlap / len`, and each zone percentage the exact
/// fraction `overlap / width` (or the sentinel for unbounded zones).
pub open spec fn spec_rows_match(r: Seq<ZoneHit>, s: Seq<SpecZoneRow>, len: int) -> bool {
    &&& r.len() == s.len()
    &&& forall|i: int|
        0 <= i < r.len() ==> {
            &&& (#[trigger] r[i]).area == s[i].0
            &&& r[i].pctg_region == (Pct::Ratio { num: s[i].1 as i64, den: len as i64 })
            &&& r[i].pctg_area == if s[i].2 > 0 {
                Pct::Ratio { num: s[i].1 as i64, den: s[i].2 as i64 }
            } else {
                Pct::NotApplicable
            }
        }
}

/// Sum of the overlap lengths of a row sequence.
pub open spec fn spec_sum_overlaps(s: Seq<SpecZoneRow>) -> int
    decreases s.len(),
{
    if s.len() == 0 {
        0
    } else {
        spec_sum_overlaps(s.drop_last()) + s.last().1
    }
}

} // verus!
