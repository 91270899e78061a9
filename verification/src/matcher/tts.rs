//! End-side zone classification: TTS and downstream.
//!
//! The canonical orientation is the same as for the start side: the anchor
//! point is a low coordinate and the TTS zone is the `tts_w` bases below
//! it, with everything further left downstream.  The mirroring polarity is
//! inverted relative to the start side: a *positive*-strand anchor is
//! mirrored about the anchor exon's end (the termination site), while a
//! negative-strand anchor passes through unmirrored and anchors at the
//! exon's start.

use vstd::prelude::*;
use crate::matcher::{
    mirrored_ok, spec_rows_match, spec_sum_overlaps, spec_zone_overlap, spec_zone_row, SpecZoneRow,
    ZoneHit,
};
use crate::pct::Pct;
use crate::types::{coord_ok, Area, Strand, COORD_LIMIT};

verus! {

/// Anchor exon data for the end-side classifier: the exon's span, the
/// parent strand, and the precomputed distance from the region to the
/// anchor (in the canonical orientation, anchor minus mirrored region end).
#[derive(Debug, Clone, Copy)]
pub struct TtsExonInfo {
    pub start: i64,
    pub end: i64,
    pub strand: Strand,
    pub distance: i64,
}

/// The end-side rows in canonical orientation: within `tts_w` of the
/// anchor the TTS and downstream zones are inspected; beyond that the
/// whole region is reported as downstream.  A zone contributes a row
/// exactly when its intersection with the region is non-empty.
pub open spec fn spec_hits_end(rs: int, re: int, anchor: int, dist: int, tts_w: int) -> Seq<
    SpecZoneRow,
> {
    let len = re - rs + 1;
    if len <= 0 {
        Seq::empty()
    } else if dist <= tts_w {
        spec_zone_row(Area::Tts, spec_zone_overlap(anchor - tts_w, anchor - 1, rs, re), tts_w)
            + spec_zone_row(Area::Downstream, vstd::math::min(anchor - tts_w - 1, re) - rs + 1, 0)
    } else {
        seq![(Area::Downstream, len, 0int)]
    }
}

/// What `check_tts` classifies, after the strand-dependent mirroring.
pub open spec fn spec_check_tts(rs: int, re: int, exon: TtsExonInfo, tts_w: int) -> Seq<
    SpecZoneRow,
> {
    match exon.strand {
        Strand::Positive => spec_hits_end(
            2 * (exon.end as int) - re,
            2 * (exon.end as int) - rs,
            exon.end as int,
            exon.distance as int,
            tts_w,
        ),
        Strand::Negative => spec_hits_end(
            rs,
            re,
            exon.start as int,
            exon.distance as int,
            tts_w,
        ),
    }
}

/// Classifies the overlap of a region with the end-side zones of an
/// anchor exon: at most one TTS row and one downstream row, in that
/// order.  A region that is empty after mirroring yields no rows.  Every
/// returned percentage is a well-formed fraction in `[0, 100]`.
#[verifier::rlimit(30)]
pub fn check_tts(
    dhs_start: i64,
    dhs_end: i64,
    exon_info: &TtsExonInfo,
    tts_distance: i64,
) -> (r: Vec<ZoneHit>)
    requires
        coord_ok(dhs_start as int),
        coord_ok(dhs_end as int),
        coord_ok(exon_info.start as int),
        coord_ok(exon_info.end as int),
        0 <= tts_distance <= COORD_LIMIT,
    ensures
        spec_rows_match(
            r@,
            spec_check_tts(dhs_start as int, dhs_end as int, *exon_info, tts_distance as int),
            dhs_end - dhs_start + 1,
        ),
        forall|i: int|
            0 <= i < r@.len() ==> (#[trigger] r@[i]).pctg_region.well_formed()
                && r@[i].pctg_area.well_formed(),
{
    let (rs, re, anchor) = match exon_info.strand {
        Strand::Positive => (
            2 * exon_info.end - dhs_end,
            2 * exon_info.end - dhs_start,
            exon_info.end,
        ),
        Strand::Negative => (dhs_start, dhs_end, exon_info.start),
    };
    let r = hits_end(rs, re, anchor, exon_info.distance, tts_distance);
    proof {
        let ghost rows = spec_hits_end(
            rs as int,
            re as int,
            anchor as int,
            exon_info.distance as int,
            tts_distance as int,
        );
        let ghost len = re - rs + 1;
        assert(len == dhs_end - dhs_start + 1);
        assert(rows == spec_check_tts(
            dhs_start as int,
            dhs_end as int,
            *exon_info,
            tts_distance as int,
        ));
        lemma_hits_end_bounded(
            rs as int,
            re as int,
            anchor as int,
            exon_info.distance as int,
            tts_distance as int,
        );
        assert forall|i: int|
            0 <= i < r@.len() implies (#[trigger] r@[i]).pctg_region.well_formed()
            && r@[i].pctg_area.well_formed() by {
            assert(1 <= rows[i].1 <= len as int);
            assert(rows[i].2 > 0 ==> rows[i].1 <= rows[i].2);
            assert(rows[i].2 == tts_distance as int || rows[i].2 == 0);
        }
    }
    r
}

/// The canonical, strand-unaware end-side classifier on pre-mirrored
/// coordinates.
fn hits_end(rs: i64, re: i64, anchor: i64, dist: i64, tts_w: i64) -> (r: Vec<ZoneHit>)
    requires
        mirrored_ok(rs as int),
        mirrored_ok(re as int),
        coord_ok(anchor as int),
        0 <= tts_w <= COORD_LIMIT,
    ensures
        spec_rows_match(
            r@,
            spec_hits_end(rs as int, re as int, anchor as int, dist as int, tts_w as int),
            re - rs + 1,
        ),
{
    let mut out: Vec<ZoneHit> = Vec::new();
    let len = re - rs + 1;
    if len <= 0 {
        return out;
    }
    let ghost rows = spec_hits_end(rs as int, re as int, anchor as int, dist as int, tts_w as int);
    if dist <= tts_w {
        super::tss::push_zone_row(&mut out, Area::Tts, anchor - tts_w, anchor - 1, rs, re, tts_w, len);
        super::tss::push_zone_row(&mut out, Area::Downstream, rs, anchor - tts_w - 1, rs, re, 0, len);
        proof {
            assert(spec_zone_overlap(rs as int, anchor - tts_w - 1, rs as int, re as int)
                == vstd::math::min(anchor - tts_w - 1, re as int) - rs + 1);
            assert(spec_rows_match(out@, rows, re - rs + 1));
        }
    } else {
        out.push(
            ZoneHit {
                area: Area::Downstream,
                pctg_region: Pct::Ratio { num: len, den: len },
                pctg_area: Pct::NotApplicable,
            },
        );
        proof {
            assert(spec_rows_match(out@, rows, re - rs + 1));
        }
    }
    out
}

/// Every end-side row has a positive overlap no larger than the region
/// length and no larger than its zone's width, and the overlaps of all
/// rows together never exceed the region length: region percentages lie
/// in `[0, 100]` and the reported overlaps sum to at most the region
/// length.
pub proof fn lemma_hits_end_bounded(rs: int, re: int, anchor: int, dist: int, tts_w: int)
    requires
        tts_w >= 0,
    ensures
        ({
            let rows = spec_hits_end(rs, re, anchor, dist, tts_w);
            let len = re - rs + 1;
            &&& forall|i: int|
                0 <= i < rows.len() ==> 1 <= (#[trigger] rows[i]).1 && rows[i].1 <= len
            &&& forall|i: int|
                0 <= i < rows.len() ==> ((#[trigger] rows[i]).2 > 0 ==> rows[i].1 <= rows[i].2)
            &&& forall|i: int|
                0 <= i < rows.len() ==> ((#[trigger] rows[i]).2 == tts_w || rows[i].2 == 0)
            &&& spec_sum_overlaps(rows) <= vstd::math::max(len, 0)
        }),
{
    let rows = spec_hits_end(rs, re, anchor, dist, tts_w);
    let len = re - rs + 1;
    reveal_with_fuel(spec_sum_overlaps, 4);
    if len <= 0 {
    } else if dist <= tts_w {
        let o1 = spec_zone_overlap(anchor - tts_w, anchor - 1, rs, re);
        let o2 = vstd::math::min(anchor - tts_w - 1, re) - rs + 1;
        assert(rows =~= spec_zone_row(Area::Tts, o1, tts_w) + spec_zone_row(
            Area::Downstream,
            o2,
            0,
        ));
    } else {
        assert(rows =~= seq![(Area::Downstream, len, 0int)]);
    }
}

/// The end-side rows carry only the two end-side zones, each at most
/// once.
pub proof fn lemma_hits_end_distinct(rs: int, re: int, anchor: int, dist: int, tts_w: int)
    ensures
        ({
            let rows = spec_hits_end(rs, re, anchor, dist, tts_w);
            &&& forall|i: int|
                0 <= i < rows.len() ==> ((#[trigger] rows[i]).0 == Area::Tts || rows[i].0
                    == Area::Downstream)
            &&& forall|i: int, j: int| 0 <= i < j < rows.len() ==> rows[i].0 != rows[j].0
        }),
{
    let rows = spec_hits_end(rs, re, anchor, dist, tts_w);
    let len = re - rs + 1;
    if len <= 0 {
    } else if dist <= tts_w {
        let o1 = spec_zone_overlap(anchor - tts_w, anchor - 1, rs, re);
        let o2 = vstd::math::min(anchor - tts_w - 1, re) - rs + 1;
        assert(rows =~= spec_zone_row(Area::Tts, o1, tts_w) + spec_zone_row(
            Area::Downstream,
            o2,
            0,
        ));
    } else {
        assert(rows =~= seq![(Area::Downstream, len, 0int)]);
    }
}

} // verus!
