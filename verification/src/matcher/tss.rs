//! Start-side zone classification: TSS, promoter and upstream.
//!
//! The classifier is written once, in the canonical orientation where the
//! anchor point is a low coordinate and the zones extend leftwards from it:
//! the TSS zone is `[anchor - tss_w, anchor - 1]`, the promoter zone the
//! `prom_w` bases below it, and everything further left is upstream.  For a
//! negative-strand anchor the region is first mirrored about the anchor
//! exon's end (`x' = 2 * end - x`), which maps the problem onto the same
//! orientation; a positive-strand anchor needs no mirroring and anchors at
//! the exon's start.

use vstd::prelude::*;
use crate::matcher::{
    mirrored_ok, spec_rows_match, spec_sum_overlaps, spec_zone_overlap, spec_zone_row, zone_edge_ok,
    SpecZoneRow, ZoneHit,
};
use crate::pct::Pct;
use crate::types::{coord_ok, Area, Strand, COORD_LIMIT};

verus! {

/// Anchor exon data for the start-side classifier: the exon's span, the
/// parent strand, and the precomputed distance from the region to the
/// anchor (in the canonical orientation, anchor minus mirrored region end).
#[derive(Debug, Clone, Copy)]
pub struct TssExonInfo {
    pub start: i64,
    pub end: i64,
    pub strand: Strand,
    pub distance: i64,
}

/// The start-side rows in canonical orientation.  `dist` selects how far
/// out the search reaches: within `tss_w` of the anchor the TSS, promoter
/// and upstream zones are all inspected; within `tss_w + prom_w` only the
/// promoter and upstream zones; beyond that the whole region is reported
/// as upstream.  A zone contributes a row exactly when its intersection
/// with the region is non-empty.
pub open spec fn spec_hits_start(
    rs: int,
    re: int,
    anchor: int,
    dist: int,
    tss_w: int,
    prom_w: int,
) -> Seq<SpecZoneRow> {
    let len = re - rs + 1;
    if len <= 0 {
        Seq::empty()
    } else if dist <= tss_w {
        spec_zone_row(Area::Tss, spec_zone_overlap(anchor - tss_w, anchor - 1, rs, re), tss_w)
            + spec_zone_row(
            Area::Promoter,
            spec_zone_overlap(anchor - tss_w - prom_w, anchor - tss_w - 1, rs, re),
            prom_w,
        ) + spec_zone_row(
            Area::Upstream,
            vstd::math::min(anchor - tss_w - prom_w - 1, re) - rs + 1,
            0,
        )
    } else if dist <= tss_w + prom_w {
        spec_zone_row(
            Area::Promoter,
            spec_zone_overlap(anchor - tss_w - prom_w, anchor - tss_w - 1, rs, re),
            prom_w,
        ) + spec_zone_row(
            Area::Upstream,
            vstd::math::min(anchor - tss_w - prom_w - 1, re) - rs + 1,
            0,
        )
    } else {
        seq![(Area::Upstream, len, 0int)]
    }
}

/// What `check_tss` classifies, after the strand-dependent mirroring.
pub open spec fn spec_check_tss(
    rs: int,
    re: int,
    exon: TssExonInfo,
    tss_w: int,
    prom_w: int,
) -> Seq<SpecZoneRow> {
    match exon.strand {
        Strand::Positive => spec_hits_start(
            rs,
            re,
            exon.start as int,
            exon.distance as int,
            tss_w,
            prom_w,
        ),
        Strand::Negative => spec_hits_start(
            2 * (exon.end as int) - re,
            2 * (exon.end as int) - rs,
            exon.end as int,
            exon.distance as int,
            tss_w,
            prom_w,
        ),
    }
}

/// Appends the row for one bounded zone `[lo, hi]`, if the region meets it.
pub(crate) fn push_zone_row(
    out: &mut Vec<ZoneHit>,
    area: Area,
    lo: i64,
    hi: i64,
    rs: i64,
    re: i64,
    width: i64,
    len: i64,
) -> (pushed: bool)
    requires
        zone_edge_ok(lo as int),
        zone_edge_ok(hi as int),
        mirrored_ok(rs as int),
        mirrored_ok(re as int),
        0 <= width,
        len == re - rs + 1,
        1 <= len,
    ensures
        ({
            let o = spec_zone_overlap(lo as int, hi as int, rs as int, re as int);
            if o >= 1 {
                pushed && final(out)@ == old(out)@.push(
                    ZoneHit {
                        area,
                        pctg_region: Pct::Ratio { num: o as i64, den: len },
                        pctg_area: if width > 0 {
                            Pct::Ratio { num: o as i64, den: width }
                        } else {
                            Pct::NotApplicable
                        },
                    },
                )
            } else {
                !pushed && final(out)@ == old(out)@
            }
        }),
{
    let low = if lo < rs {
        rs
    } else {
        lo
    };
    let high = if hi < re {
        hi
    } else {
        re
    };
    let o = high - low + 1;
    if o >= 1 {
        let pctg_area = if width > 0 {
            Pct::Ratio { num: o, den: width }
        } else {
            Pct::NotApplicable
        };
        out.push(ZoneHit { area, pctg_region: Pct::Ratio { num: o, den: len }, pctg_area });
        true
    } else {
        false
    }
}

/// Classifies the overlap of a region with the start-side zones of an
/// anchor exon: at most one TSS row, one promoter row and one upstream
/// row, in that order.  A region that is empty after mirroring yields no
/// rows.  Every returned percentage is a well-formed fraction in
/// `[0, 100]`.
#[verifier::rlimit(80)]
pub fn check_tss(
    dhs_start: i64,
    dhs_end: i64,
    exon_info: &TssExonInfo,
    tss_distance: i64,
    promoter_distance: i64,
) -> (r: Vec<ZoneHit>)
    requires
        coord_ok(dhs_start as int),
        coord_ok(dhs_end as int),
        coord_ok(exon_info.start as int),
        coord_ok(exon_info.end as int),
        0 <= tss_distance <= COORD_LIMIT,
        0 <= promoter_distance <= COORD_LIMIT,
    ensures
        spec_rows_match(
            r@,
            spec_check_tss(
                dhs_start as int,
                dhs_end as int,
                *exon_info,
                tss_distance as int,
                promoter_distance as int,
            ),
            dhs_end - dhs_start + 1,
        ),
        forall|i: int|
            0 <= i < r@.len() ==> (#[trigger] r@[i]).pctg_region.well_formed()
                && r@[i].pctg_area.well_formed(),
{
    let (rs, re, anchor) = match exon_info.strand {
        Strand::Positive => (dhs_start, dhs_end, exon_info.start),
        Strand::Negative => (
            2 * exon_info.end - dhs_end,
            2 * exon_info.end - dhs_start,
            exon_info.end,
        ),
    };
    let r = hits_start(rs, re, anchor, exon_info.distance, tss_distance, promoter_distance);
    proof {
        let ghost rows = spec_hits_start(
            rs as int,
            re as int,
            anchor as int,
            exon_info.distance as int,
            tss_distance as int,
            promoter_distance as int,
        );
        let ghost len = re - rs + 1;
        assert(len == dhs_end - dhs_start + 1);
        assert(rows == spec_check_tss(
            dhs_start as int,
            dhs_end as int,
            *exon_info,
            tss_distance as int,
            promoter_distance as int,
        ));
        lemma_hits_start_bounded(
            rs as int,
            re as int,
            anchor as int,
            exon_info.distance as int,
            tss_distance as int,
            promoter_distance as int,
        );
        assert forall|i: int|
            0 <= i < r@.len() implies (#[trigger] r@[i]).pctg_region.well_formed()
            && r@[i].pctg_area.well_formed() by {
            assert(1 <= rows[i].1 <= len as int);
            assert(rows[i].2 > 0 ==> rows[i].1 <= rows[i].2);
            assert(rows[i].2 == tss_distance as int || rows[i].2 == promoter_distance as int
                || rows[i].2 == 0);
        }
    }
    r
}

/// The canonical, strand-unaware start-side classifier on pre-mirrored
/// coordinates.
fn hits_start(rs: i64, re: i64, anchor: i64, dist: i64, tss_w: i64, prom_w: i64) -> (r: Vec<
    ZoneHit,
>)
    requires
        mirrored_ok(rs as int),
        mirrored_ok(re as int),
        coord_ok(anchor as int),
        0 <= tss_w <= COORD_LIMIT,
        0 <= prom_w <= COORD_LIMIT,
    ensures
        spec_rows_match(
            r@,
            spec_hits_start(rs as int, re as int, anchor as int, dist as int, tss_w as int, prom_w as int),
            re - rs + 1,
        ),
{
    let mut out: Vec<ZoneHit> = Vec::new();
    let len = re - rs + 1;
    if len <= 0 {
        return out;
    }
    let ghost rows = spec_hits_start(
        rs as int,
        re as int,
        anchor as int,
        dist as int,
        tss_w as int,
        prom_w as int,
    );
    if dist <= tss_w {
        push_zone_row(&mut out, Area::Tss, anchor - tss_w, anchor - 1, rs, re, tss_w, len);
        push_zone_row(
            &mut out,
            Area::Promoter,
            anchor - tss_w - prom_w,
            anchor - tss_w - 1,
            rs,
            re,
            prom_w,
            len,
        );
        push_zone_row(&mut out, Area::Upstream, rs, anchor - tss_w - prom_w - 1, rs, re, 0, len);
        proof {
            assert(spec_zone_overlap(rs as int, anchor - tss_w - prom_w - 1, rs as int, re as int)
                == vstd::math::min(anchor - tss_w - prom_w - 1, re as int) - rs + 1);
            assert(spec_rows_match(out@, rows, re - rs + 1));
        }
    } else if dist <= tss_w + prom_w {
        push_zone_row(
            &mut out,
            Area::Promoter,
            anchor - tss_w - prom_w,
            anchor - tss_w - 1,
            rs,
            re,
            prom_w,
            len,
        );
        push_zone_row(&mut out, Area::Upstream, rs, anchor - tss_w - prom_w - 1, rs, re, 0, len);
        proof {
            assert(spec_zone_overlap(rs as int, anchor - tss_w - prom_w - 1, rs as int, re as int)
                == vstd::math::min(anchor - tss_w - prom_w - 1, re as int) - rs + 1);
            assert(spec_rows_match(out@, rows, re - rs + 1));
        }
    } else {
        out.push(
            ZoneHit {
                area: Area::Upstream,
                pctg_region: Pct::Ratio { num: len, den: len },
                pctg_area: Pct::NotApplicable,
            },
        );
        proof {
            assert(spec_rows_match(out@, rows, re - rs + 1));
        }
    }
    out
}

/// Every start-side row has a positive overlap no larger than the region
/// length and no larger than its zone's width, and the overlaps of all
/// rows together never exceed the region length: region percentages lie in
/// `[0, 100]` and the reported overlaps sum to at most the region length.
pub proof fn lemma_hits_start_bounded(
    rs: int,
    re: int,
    anchor: int,
    dist: int,
    tss_w: int,
    prom_w: int,
)
    requires
        tss_w >= 0,
        prom_w >= 0,
    ensures
        ({
            let rows = spec_hits_start(rs, re, anchor, dist, tss_w, prom_w);
            let len = re - rs + 1;
            &&& forall|i: int|
                0 <= i < rows.len() ==> 1 <= (#[trigger] rows[i]).1 && rows[i].1 <= len
            &&& forall|i: int|
                0 <= i < rows.len() ==> ((#[trigger] rows[i]).2 > 0 ==> rows[i].1 <= rows[i].2)
            &&& forall|i: int|
                0 <= i < rows.len() ==> ((#[trigger] rows[i]).2 == tss_w || rows[i].2 == prom_w
                    || rows[i].2 == 0)
            &&& spec_sum_overlaps(rows) <= vstd::math::max(len, 0)
        }),
{
    let rows = spec_hits_start(rs, re, anchor, dist, tss_w, prom_w);
    let len = re - rs + 1;
    reveal_with_fuel(spec_sum_overlaps, 5);
    if len <= 0 {
    } else if dist <= tss_w {
        let o1 = spec_zone_overlap(anchor - tss_w, anchor - 1, rs, re);
        let o2 = spec_zone_overlap(anchor - tss_w - prom_w, anchor - tss_w - 1, rs, re);
        let o3 = vstd::math::min(anchor - tss_w - prom_w - 1, re) - rs + 1;
        assert(rows =~= spec_zone_row(Area::Tss, o1, tss_w) + spec_zone_row(
            Area::Promoter,
            o2,
            prom_w,
        ) + spec_zone_row(Area::Upstream, o3, 0));
    } else if dist <= tss_w + prom_w {
        let o2 = spec_zone_overlap(anchor - tss_w - prom_w, anchor - tss_w - 1, rs, re);
        let o3 = vstd::math::min(anchor - tss_w - prom_w - 1, re) - rs + 1;
        assert(rows =~= spec_zone_row(Area::Promoter, o2, prom_w) + spec_zone_row(
            Area::Upstream,
            o3,
            0,
        ));
    } else {
        assert(rows =~= seq![(Area::Upstream, len, 0int)]);
    }
}

/// Mirroring round trip: classifying a region against a negative-strand
/// anchor gives exactly the rows of the equivalent positive-strand
/// problem, the one whose region and anchor exon are mirrored about the
/// anchor exon's end coordinate (`x' = 2 * end - x`, span ends swapped).
pub proof fn lemma_check_tss_mirror(
    rs: int,
    re: int,
    exon: TssExonInfo,
    tss_w: int,
    prom_w: int,
)
    requires
        exon.strand == Strand::Negative,
        coord_ok(rs),
        coord_ok(re),
        coord_ok(exon.start as int),
        coord_ok(exon.end as int),
    ensures
        spec_check_tss(rs, re, exon, tss_w, prom_w) == spec_check_tss(
            2 * (exon.end as int) - re,
            2 * (exon.end as int) - rs,
            TssExonInfo {
                start: exon.end,
                end: (2 * (exon.end as int) - (exon.start as int)) as i64,
                strand: Strand::Positive,
                distance: exon.distance,
            },
            tss_w,
            prom_w,
        ),
{
}

/// The start-side rows carry only the three start-side zones, each at
/// most once.
pub proof fn lemma_hits_start_distinct(rs: int, re: int, anchor: int, dist: int, tss_w: int, prom_w: int)
    ensures
        ({
            let rows = spec_hits_start(rs, re, anchor, dist, tss_w, prom_w);
            &&& forall|i: int|
                0 <= i < rows.len() ==> ((#[trigger] rows[i]).0 == Area::Tss || rows[i].0
                    == Area::Promoter || rows[i].0 == Area::Upstream)
            &&& forall|i: int, j: int| 0 <= i < j < rows.len() ==> rows[i].0 != rows[j].0
        }),
{
    let rows = spec_hits_start(rs, re, anchor, dist, tss_w, prom_w);
    let len = re - rs + 1;
    if len <= 0 {
    } else if dist <= tss_w {
        let o1 = spec_zone_overlap(anchor - tss_w, anchor - 1, rs, re);
        let o2 = spec_zone_overlap(anchor - tss_w - prom_w, anchor - tss_w - 1, rs, re);
        let o3 = vstd::math::min(anchor - tss_w - prom_w - 1, re) - rs + 1;
        assert(rows =~= spec_zone_row(Area::Tss, o1, tss_w) + spec_zone_row(
            Area::Promoter,
            o2,
            prom_w,
        ) + spec_zone_row(Area::Upstream, o3, 0));
    } else if dist <= tss_w + prom_w {
        let o2 = spec_zone_overlap(anchor - tss_w - prom_w, anchor - tss_w - 1, rs, re);
        let o3 = vstd::math::min(anchor - tss_w - prom_w - 1, re) - rs + 1;
        assert(rows =~= spec_zone_row(Area::Promoter, o2, prom_w) + spec_zone_row(
            Area::Upstream,
            o3,
            0,
        ));
    } else {
        assert(rows =~= seq![(Area::Upstream, len, 0int)]);
    }
}

} // verus!
