//! The overlap driver: walks the genes near a region, classifies the
//! region against every transcript, and dispatches the raw candidates to
//! the requested report level.
//!
//! Per transcript the driver emits, in order: one row per exon the region
//! overlaps (first exon or gene body), an intron row when the region sits
//! inside the transcript without touching an exon, the start-side zone
//! rows when the region extends past the transcriptionally-first exon's
//! outer edge, and the end-side zone rows when it extends past the
//! transcriptionally-last exon's outer edge.  Proximity rows whose anchor
//! distance exceeds the lookback limit are discarded.

use vstd::prelude::*;
use crate::config::Config;
use crate::matcher::tss::{check_tss, spec_check_tss, TssExonInfo};
use crate::matcher::tts::{check_tts, spec_check_tts, TtsExonInfo};
use crate::matcher::rules::{
    apply_rules, select_transcript, spec_apply_rules, spec_best_priority, spec_cands_wf,
    spec_gene_row, spec_groups_ok, spec_groups_view,
};
use crate::matcher::{spec_rows_match, SpecZoneRow};
use crate::pct::Pct;
use crate::types::{
    coord_ok, spec_div2_trunc, spec_region_like, Area, Candidate, Exon, Gene, Region, ReportLevel,
    Strand, Transcript, COORD_LIMIT,
};
use crate::text::str_eq;
use vstd::string::StringExecFns;

verus! {

/// One classification row of a transcript, in spec form: the zone, the
/// overlap length, the zone width to normalize against (not positive for
/// the sentinel), the anchor distance, and the exon index label.
pub type SpecTransRow = (Area, int, int, int, Seq<char>);

/// The exon's index label, or the empty string when none was assigned.
pub open spec fn spec_exon_label(e: Exon) -> Seq<char> {
    match e.exon_number {
        Some(s) => s@,
        None => Seq::empty(),
    }
}

/// Position of the transcriptionally first exon among `n` exons sorted by
/// genomic start.
pub open spec fn spec_first_pos(strand: Strand, n: int) -> int {
    match strand {
        Strand::Positive => 0,
        Strand::Negative => n - 1,
    }
}

/// Position of the transcriptionally last exon.
pub open spec fn spec_last_pos(strand: Strand, n: int) -> int {
    match strand {
        Strand::Positive => n - 1,
        Strand::Negative => 0,
    }
}

/// The direct exon-overlap rows among the first `upto` exons: one row per
/// overlapped exon, first-exon for the transcriptionally first one, gene
/// body otherwise; region and zone percentages are the overlap against the
/// region length and the exon length.
pub open spec fn spec_exon_rows(
    rs: int,
    re: int,
    exons: Seq<Exon>,
    strand: Strand,
    upto: int,
) -> Seq<SpecTransRow>
    decreases upto,
{
    if upto <= 0 {
        Seq::empty()
    } else {
        let i = upto - 1;
        let e = exons[i];
        let ov = crate::matcher::spec_zone_overlap(e.start as int, e.end as int, rs, re);
        spec_exon_rows(rs, re, exons, strand, i) + if ov >= 1 {
            seq![
                (
                    if i == spec_first_pos(strand, exons.len() as int) {
                        Area::FirstExon
                    } else {
                        Area::GeneBody
                    },
                    ov,
                    e.end - e.start + 1,
                    0int,
                    spec_exon_label(e),
                ),
            ]
        } else {
            Seq::empty()
        }
    }
}

/// The exon (among the first `upto`) whose end lies closest below the
/// region start; ties go to the later exon.
pub open spec fn spec_prev_idx(exons: Seq<Exon>, rs: int, upto: int) -> Option<int>
    decreases upto,
{
    if upto <= 0 {
        None
    } else {
        let p = spec_prev_idx(exons, rs, upto - 1);
        let e = exons[upto - 1];
        if e.end < rs {
            match p {
                None => Some(upto - 1),
                Some(j) => if e.end >= exons[j].end {
                    Some(upto - 1)
                } else {
                    p
                },
            }
        } else {
            p
        }
    }
}

/// The exon (among the first `upto`) whose start lies closest above the
/// region end; ties go to the earlier exon.
pub open spec fn spec_next_idx(exons: Seq<Exon>, re: int, upto: int) -> Option<int>
    decreases upto,
{
    if upto <= 0 {
        None
    } else {
        let p = spec_next_idx(exons, re, upto - 1);
        let e = exons[upto - 1];
        if e.start > re {
            match p {
                None => Some(upto - 1),
                Some(j) => if e.start < exons[j].start {
                    Some(upto - 1)
                } else {
                    p
                },
            }
        } else {
            p
        }
    }
}

/// The intron row: emitted when the region lies inside the transcript's
/// bounds without touching any exon.  The zone percentage is computed
/// against the enclosing intron's width when both flanking exons exist,
/// and is the sentinel at the transcript's edges.  The row carries the
/// label of the exon upstream of the region in genomic order, falling
/// back to the following exon.
pub open spec fn spec_intron_rows(rs: int, re: int, t: Transcript, strand: Strand) -> Seq<
    SpecTransRow,
> {
    let exons = t.exons@;
    let n = exons.len() as int;
    let len = re - rs + 1;
    if len >= 1 && n >= 1 && spec_exon_rows(rs, re, exons, strand, n).len() == 0 && t.start <= rs
        && re <= t.end {
        let p = spec_prev_idx(exons, rs, n);
        let q = spec_next_idx(exons, re, n);
        let den = if p is Some && q is Some {
            exons[q->0].start - exons[p->0].end - 1
        } else {
            0
        };
        let lbl = if p is Some {
            spec_exon_label(exons[p->0])
        } else if q is Some {
            spec_exon_label(exons[q->0])
        } else {
            Seq::empty()
        };
        seq![(Area::Intron, len, den, 0int, lbl)]
    } else {
        Seq::empty()
    }
}

/// Zone rows extended with the anchor distance and the anchor exon label.
pub open spec fn spec_tag_rows(zr: Seq<SpecZoneRow>, d: int, lbl: Seq<char>) -> Seq<SpecTransRow> {
    zr.map_values(|z: SpecZoneRow| (z.0, z.1, z.2, d, lbl))
}

/// The start-side proximity rows: fired once per transcript, against the
/// transcriptionally-first exon, when the region extends past that exon's
/// outer edge and the anchor distance stays within the lookback limit.
pub open spec fn spec_five_rows(
    rs: int,
    re: int,
    t: Transcript,
    strand: Strand,
    tss_w: int,
    prom_w: int,
    maxlb: int,
) -> Seq<SpecTransRow> {
    let exons = t.exons@;
    let n = exons.len() as int;
    if n == 0 {
        Seq::empty()
    } else {
        let fe = exons[spec_first_pos(strand, n)];
        let fires = match strand {
            Strand::Positive => rs < fe.start,
            Strand::Negative => re > fe.end,
        };
        let d = match strand {
            Strand::Positive => fe.start - re,
            Strand::Negative => rs - fe.end,
        };
        if fires && d <= maxlb {
            spec_tag_rows(
                spec_check_tss(
                    rs,
                    re,
                    TssExonInfo { start: fe.start, end: fe.end, strand, distance: d as i64 },
                    tss_w,
                    prom_w,
                ),
                d,
                spec_exon_label(fe),
            )
        } else {
            Seq::empty()
        }
    }
}

/// The end-side proximity rows: fired once per transcript, against the
/// transcriptionally-last exon, when the region extends past that exon's
/// outer edge and the anchor distance stays within the lookback limit.
pub open spec fn spec_three_rows(
    rs: int,
    re: int,
    t: Transcript,
    strand: Strand,
    tts_w: int,
    maxlb: int,
) -> Seq<SpecTransRow> {
    let exons = t.exons@;
    let n = exons.len() as int;
    if n == 0 {
        Seq::empty()
    } else {
        let le = exons[spec_last_pos(strand, n)];
        let fires = match strand {
            Strand::Positive => re > le.end,
            Strand::Negative => rs < le.start,
        };
        let d = match strand {
            Strand::Positive => rs - le.end,
            Strand::Negative => le.start - re,
        };
        if fires && d <= maxlb {
            spec_tag_rows(
                spec_check_tts(
                    rs,
                    re,
                    TtsExonInfo { start: le.start, end: le.end, strand, distance: d as i64 },
                    tts_w,
                ),
                d,
                spec_exon_label(le),
            )
        } else {
            Seq::empty()
        }
    }
}

/// All rows one transcript contributes for one region, in emission order.
pub open spec fn spec_transcript_rows(
    rs: int,
    re: int,
    t: Transcript,
    strand: Strand,
    tss_w: int,
    tts_w: int,
    prom_w: int,
    maxlb: int,
) -> Seq<SpecTransRow> {
    spec_exon_rows(rs, re, t.exons@, strand, t.exons@.len() as int) + spec_intron_rows(
        rs,
        re,
        t,
        strand,
    ) + spec_five_rows(rs, re, t, strand, tss_w, prom_w, maxlb) + spec_three_rows(
        rs,
        re,
        t,
        strand,
        tts_w,
        maxlb,
    )
}

/// Signed distance from the region midpoint to the transcript start (the
/// transcriptionally-first exon's outer edge): positive when the midpoint
/// lies downstream of it in transcription direction.
pub open spec fn spec_tss_distance(rs: int, re: int, t: Transcript, strand: Strand) -> int {
    let exons = t.exons@;
    let n = exons.len() as int;
    let mid = spec_div2_trunc(rs + re);
    if n == 0 {
        0
    } else {
        match strand {
            Strand::Positive => mid - exons[spec_first_pos(strand, n)].start,
            Strand::Negative => exons[spec_first_pos(strand, n)].end - mid,
        }
    }
}

/// Whether the candidate realizes the row for the given region, gene and
/// transcript.
pub open spec fn spec_cand_matches(
    c: Candidate,
    row: SpecTransRow,
    region_start: i64,
    region_end: i64,
    g: Gene,
    t: Transcript,
) -> bool {
    &&& c.area == row.0
    &&& c.pctg_region == (Pct::Ratio {
        num: row.1 as i64,
        den: (region_end - region_start + 1) as i64,
    })
    &&& c.pctg_area == if row.2 > 0 {
        Pct::Ratio { num: row.1 as i64, den: row.2 as i64 }
    } else {
        Pct::NotApplicable
    }
    &&& c.distance == row.3 as i64
    &&& c.exon_number@ == row.4
    &&& c.transcript == t.transcript_id
    &&& c.gene == g.gene_id
    &&& c.strand == g.strand
    &&& c.start == region_start
    &&& c.end == region_end
    &&& c.tss_distance as int == spec_tss_distance(region_start as int, region_end as int, t, g.strand)
}

/// The per-exon bounds the matcher needs of a transcript: coordinates in
/// range, exon ends ordered, exons sorted by genomic start, and the gene's
/// bounds covering every exon.
pub open spec fn spec_transcript_ok(t: Transcript, g: Gene) -> bool {
    &&& coord_ok(t.start as int)
    &&& coord_ok(t.end as int)
    &&& g.start <= t.start
    &&& t.end <= g.end
    &&& forall|i: int|
        0 <= i < t.exons@.len() ==> {
            let e = #[trigger] t.exons@[i];
            &&& coord_ok(e.start as int)
            &&& coord_ok(e.end as int)
            &&& e.start <= e.end
            &&& g.start <= e.start
            &&& e.end <= g.end
        }
    &&& forall|i: int, j: int|
        0 <= i <= j < t.exons@.len() ==> #[trigger] t.exons@[i].start <= #[trigger] t.exons@[j].start
}

/// The bounds the matcher needs of a gene.
pub open spec fn spec_gene_ok(g: Gene) -> bool {
    &&& coord_ok(g.start as int)
    &&& coord_ok(g.end as int)
    &&& forall|ti: int|
        0 <= ti < g.transcripts@.len() ==> spec_transcript_ok(#[trigger] g.transcripts@[ti], g)
}

pub open spec fn spec_genes_ok(genes: Seq<Gene>) -> bool {
    forall|i: int| 0 <= i < genes.len() ==> spec_gene_ok(#[trigger] genes[i])
}

/// Genes sorted by start coordinate.
pub open spec fn spec_genes_sorted(genes: Seq<Gene>) -> bool {
    forall|i: int, j: int|
        0 <= i <= j < genes.len() ==> #[trigger] genes[i].start <= #[trigger] genes[j].start
}

/// All candidates one transcript contributes for one region.
#[verifier::rlimit(100)]
#[verifier::spinoff_prover]
fn transcript_candidates(
    region_start: i64,
    region_end: i64,
    gene: &Gene,
    t: &Transcript,
    tss_w: i64,
    tts_w: i64,
    prom_w: i64,
    maxlb: i64,
) -> (r: Vec<Candidate>)
    requires
        coord_ok(region_start as int),
        coord_ok(region_end as int),
        spec_gene_ok(*gene),
        spec_transcript_ok(*t, *gene),
        0 <= tss_w <= COORD_LIMIT,
        0 <= tts_w <= COORD_LIMIT,
        0 <= prom_w <= COORD_LIMIT,
        0 <= maxlb <= COORD_LIMIT,
    ensures
        ({
            let rows = spec_transcript_rows(
                region_start as int,
                region_end as int,
                *t,
                gene.strand,
                tss_w as int,
                tts_w as int,
                prom_w as int,
                maxlb as int,
            );
            &&& r@.len() == rows.len()
            &&& forall|i: int|
                0 <= i < r@.len() ==> spec_cand_matches(
                    #[trigger] r@[i],
                    rows[i],
                    region_start,
                    region_end,
                    *gene,
                    *t,
                )
        }),
        spec_cands_wf(r@),
{
    let rs = region_start;
    let re = region_end;
    let strand = gene.strand;
    let n = t.exons.len();
    let mut out: Vec<Candidate> = Vec::new();
    let ghost mut rows: Seq<SpecTransRow> = Seq::empty();
    if n == 0 {
        proof {
            assert(spec_transcript_rows(
                rs as int,
                re as int,
                *t,
                strand,
                tss_w as int,
                tts_w as int,
                prom_w as int,
                maxlb as int,
            ) =~= Seq::<SpecTransRow>::empty());
        }
        return out;
    }
    let len = re - rs + 1;
    let first_pos: usize = match strand {
        Strand::Positive => 0,
        Strand::Negative => n - 1,
    };
    let last_pos: usize = match strand {
        Strand::Positive => n - 1,
        Strand::Negative => 0,
    };
    let mid: i64 = {
        let s: i64 = rs + re;
        if s >= 0 {
            ((s as u64) / 2) as i64
        } else {
            let m: u64 = (-s) as u64;
            -((m / 2) as i64)
        }
    };
    let tss_distance: i64 = match strand {
        Strand::Positive => mid - t.exons[first_pos].start,
        Strand::Negative => t.exons[first_pos].end - mid,
    };
    proof {
        assert(tss_distance as int == spec_tss_distance(rs as int, re as int, *t, strand));
    }

    // Direct exon overlaps.
    let mut i: usize = 0;
    while i < n
        invariant
            0 <= i <= n,
            n == t.exons@.len(),
            coord_ok(rs as int),
            coord_ok(re as int),
            spec_gene_ok(*gene),
            spec_transcript_ok(*t, *gene),
            strand == gene.strand,
            len == re - rs + 1,
            first_pos as int == spec_first_pos(strand, n as int),
            tss_distance as int == spec_tss_distance(rs as int, re as int, *t, strand),
            rows == spec_exon_rows(rs as int, re as int, t.exons@, strand, i as int),
            spec_cands_wf(out@),
            out@.len() == rows.len(),
            forall|j: int|
                0 <= j < out@.len() ==> spec_cand_matches(
                    #[trigger] out@[j],
                    rows[j],
                    rs,
                    re,
                    *gene,
                    *t,
                ),
        decreases n - i,
    {
        let e = &t.exons[i];
        let lo = if e.start < rs {
            rs
        } else {
            e.start
        };
        let hi = if e.end < re {
            e.end
        } else {
            re
        };
        let ov = hi - lo + 1;
        if ov >= 1 {
            let area = if i == first_pos {
                Area::FirstExon
            } else {
                Area::GeneBody
            };
            let label = match &e.exon_number {
                Some(s) => s.clone(),
                None => String::new(),
            };
            let exon_len = e.end - e.start + 1;
            let c = Candidate {
                start: rs,
                end: re,
                strand,
                exon_number: label,
                area,
                transcript: t.transcript_id.clone(),
                gene: gene.gene_id.clone(),
                distance: 0,
                pctg_region: Pct::Ratio { num: ov, den: len },
                pctg_area: Pct::Ratio { num: ov, den: exon_len },
                tss_distance,
            };
            out.push(c);
            proof {
                rows = rows.push(
                    (
                        area,
                        ov as int,
                        exon_len as int,
                        0int,
                        spec_exon_label(t.exons@[i as int]),
                    ),
                );
            }
        }
        proof {
            assert(rows =~= spec_exon_rows(rs as int, re as int, t.exons@, strand, i as int + 1));
        }
        i += 1;
    }
    let any_overlap = out.len() > 0;

    // Intron: the region sits inside the transcript but touches no exon.
    if !any_overlap && len >= 1 && t.start <= rs && re <= t.end {
        let mut prev: Option<usize> = None;
        let mut next: Option<usize> = None;
        let mut i: usize = 0;
        while i < n
            invariant
                0 <= i <= n,
                n == t.exons@.len(),
                spec_transcript_ok(*t, *gene),
                prev matches Some(p) ==> p < n,
                next matches Some(q) ==> q < n,
                prev matches Some(p) ==> t.exons@[p as int].end < rs,
                next matches Some(q) ==> t.exons@[q as int].start > re,
                (match prev {
                    Some(p) => Some(p as int),
                    None => None,
                }) == spec_prev_idx(t.exons@, rs as int, i as int),
                (match next {
                    Some(q) => Some(q as int),
                    None => None,
                }) == spec_next_idx(t.exons@, re as int, i as int),
            decreases n - i,
        {
            let e = &t.exons[i];
            if e.end < rs {
                prev = match prev {
                    None => Some(i),
                    Some(j) => if e.end >= t.exons[j].end {
                        Some(i)
                    } else {
                        Some(j)
                    },
                };
            }
            if e.start > re {
                next = match next {
                    None => Some(i),
                    Some(j) => if e.start < t.exons[j].start {
                        Some(i)
                    } else {
                        Some(j)
                    },
                };
            }
            i += 1;
        }
        let (pctg_area, label) = match (prev, next) {
            (Some(p), Some(q)) => {
                let den = t.exons[q].start - t.exons[p].end - 1;
                let lbl = match &t.exons[p].exon_number {
                    Some(s) => s.clone(),
                    None => String::new(),
                };
                (
                    if den > 0 {
                        Pct::Ratio { num: len, den }
                    } else {
                        Pct::NotApplicable
                    },
                    lbl,
                )
            },
            (Some(p), None) => {
                let lbl = match &t.exons[p].exon_number {
                    Some(s) => s.clone(),
                    None => String::new(),
                };
                (Pct::NotApplicable, lbl)
            },
            (None, Some(q)) => {
                let lbl = match &t.exons[q].exon_number {
                    Some(s) => s.clone(),
                    None => String::new(),
                };
                (Pct::NotApplicable, lbl)
            },
            (None, None) => (Pct::NotApplicable, String::new()),
        };
        let c = Candidate {
            start: rs,
            end: re,
            strand,
            exon_number: label,
            area: Area::Intron,
            transcript: t.transcript_id.clone(),
            gene: gene.gene_id.clone(),
            distance: 0,
            pctg_region: Pct::Ratio { num: len, den: len },
            pctg_area,
            tss_distance,
        };
        out.push(c);
        proof {
            let irows = spec_intron_rows(rs as int, re as int, *t, strand);
            assert(irows.len() == 1);
            rows = rows + irows;
            assert(rows =~= spec_exon_rows(rs as int, re as int, t.exons@, strand, n as int)
                + irows);
        }
    } else {
        proof {
            assert(spec_intron_rows(rs as int, re as int, *t, strand) =~= Seq::<
                SpecTransRow,
            >::empty());
            assert(rows =~= spec_exon_rows(rs as int, re as int, t.exons@, strand, n as int)
                + spec_intron_rows(rs as int, re as int, *t, strand));
        }
    }

    // Start-side proximity against the transcriptionally-first exon.
    let fe_start = t.exons[first_pos].start;
    let fe_end = t.exons[first_pos].end;
    let fires5 = match strand {
        Strand::Positive => rs < fe_start,
        Strand::Negative => re > fe_end,
    };
    let d5 = match strand {
        Strand::Positive => fe_start - re,
        Strand::Negative => rs - fe_end,
    };
    let ghost rows_before5 = rows;
    if fires5 && d5 <= maxlb {
        let info = TssExonInfo { start: fe_start, end: fe_end, strand, distance: d5 };
        let hits = check_tss(rs, re, &info, tss_w, prom_w);
        let ghost zrows = spec_check_tss(rs as int, re as int, info, tss_w as int, prom_w as int);
        let label5 = match &t.exons[first_pos].exon_number {
            Some(s) => s.clone(),
            None => String::new(),
        };
        let mut j: usize = 0;
        while j < hits.len()
            invariant
                0 <= j <= hits@.len(),
                hits@.len() == zrows.len(),
                spec_rows_match(hits@, zrows, re - rs + 1),
                forall|jj: int|
                    0 <= jj < hits@.len() ==> (#[trigger] hits@[jj]).pctg_region.well_formed()
                        && hits@[jj].pctg_area.well_formed(),
                coord_ok(rs as int),
                coord_ok(re as int),
                spec_gene_ok(*gene),
                spec_transcript_ok(*t, *gene),
                strand == gene.strand,
                tss_distance as int == spec_tss_distance(rs as int, re as int, *t, strand),
                label5@ == spec_exon_label(t.exons@[spec_first_pos(strand, t.exons@.len() as int)]),
                rows == rows_before5 + spec_tag_rows(zrows.take(j as int), d5 as int, label5@),
                spec_cands_wf(out@),
                out@.len() == rows.len(),
                forall|jj: int|
                    0 <= jj < out@.len() ==> spec_cand_matches(
                        #[trigger] out@[jj],
                        rows[jj],
                        rs,
                        re,
                        *gene,
                        *t,
                    ),
            decreases hits@.len() - j,
        {
            let h = &hits[j];
            let c = Candidate {
                start: rs,
                end: re,
                strand,
                exon_number: label5.clone(),
                area: h.area,
                transcript: t.transcript_id.clone(),
                gene: gene.gene_id.clone(),
                distance: d5,
                pctg_region: h.pctg_region,
                pctg_area: h.pctg_area,
                tss_distance,
            };
            out.push(c);
            proof {
                rows = rows.push((zrows[j as int].0, zrows[j as int].1, zrows[j as int].2, d5 as int, label5@));
                assert(spec_tag_rows(zrows.take(j as int + 1), d5 as int, label5@)
                    =~= spec_tag_rows(zrows.take(j as int), d5 as int, label5@).push(
                    (zrows[j as int].0, zrows[j as int].1, zrows[j as int].2, d5 as int, label5@),
                ));
            }
            j += 1;
        }
        proof {
            assert(zrows.take(zrows.len() as int) =~= zrows);
            assert(spec_five_rows(
                rs as int,
                re as int,
                *t,
                strand,
                tss_w as int,
                prom_w as int,
                maxlb as int,
            ) == spec_tag_rows(zrows, d5 as int, label5@));
            assert(rows == rows_before5 + spec_five_rows(
                rs as int,
                re as int,
                *t,
                strand,
                tss_w as int,
                prom_w as int,
                maxlb as int,
            ));
        }
    } else {
        proof {
            assert(spec_five_rows(
                rs as int,
                re as int,
                *t,
                strand,
                tss_w as int,
                prom_w as int,
                maxlb as int,
            ) =~= Seq::<SpecTransRow>::empty());
            assert(rows =~= rows_before5 + spec_five_rows(
                rs as int,
                re as int,
                *t,
                strand,
                tss_w as int,
                prom_w as int,
                maxlb as int,
            ));
        }
    }

    // End-side proximity against the transcriptionally-last exon.
    let le_start = t.exons[last_pos].start;
    let le_end = t.exons[last_pos].end;
    let fires3 = match strand {
        Strand::Positive => re > le_end,
        Strand::Negative => rs < le_start,
    };
    let d3 = match strand {
        Strand::Positive => rs - le_end,
        Strand::Negative => le_start - re,
    };
    let ghost rows_before3 = rows;
    if fires3 && d3 <= maxlb {
        let info = TtsExonInfo { start: le_start, end: le_end, strand, distance: d3 };
        let hits = check_tts(rs, re, &info, tts_w);
        let ghost zrows = spec_check_tts(rs as int, re as int, info, tts_w as int);
        let label3 = match &t.exons[last_pos].exon_number {
            Some(s) => s.clone(),
            None => String::new(),
        };
        let mut j: usize = 0;
        while j < hits.len()
            invariant
                0 <= j <= hits@.len(),
                hits@.len() == zrows.len(),
                spec_rows_match(hits@, zrows, re - rs + 1),
                forall|jj: int|
                    0 <= jj < hits@.len() ==> (#[trigger] hits@[jj]).pctg_region.well_formed()
                        && hits@[jj].pctg_area.well_formed(),
                coord_ok(rs as int),
                coord_ok(re as int),
                spec_gene_ok(*gene),
                spec_transcript_ok(*t, *gene),
                strand == gene.strand,
                tss_distance as int == spec_tss_distance(rs as int, re as int, *t, strand),
                label3@ == spec_exon_label(t.exons@[spec_last_pos(strand, t.exons@.len() as int)]),
                rows == rows_before3 + spec_tag_rows(zrows.take(j as int), d3 as int, label3@),
                spec_cands_wf(out@),
                out@.len() == rows.len(),
                forall|jj: int|
                    0 <= jj < out@.len() ==> spec_cand_matches(
                        #[trigger] out@[jj],
                        rows[jj],
                        rs,
                        re,
                        *gene,
                        *t,
                    ),
            decreases hits@.len() - j,
        {
            let h = &hits[j];
            let c = Candidate {
                start: rs,
                end: re,
                strand,
                exon_number: label3.clone(),
                area: h.area,
                transcript: t.transcript_id.clone(),
                gene: gene.gene_id.clone(),
                distance: d3,
                pctg_region: h.pctg_region,
                pctg_area: h.pctg_area,
                tss_distance,
            };
            out.push(c);
            proof {
                rows = rows.push((zrows[j as int].0, zrows[j as int].1, zrows[j as int].2, d3 as int, label3@));
                assert(spec_tag_rows(zrows.take(j as int + 1), d3 as int, label3@)
                    =~= spec_tag_rows(zrows.take(j as int), d3 as int, label3@).push(
                    (zrows[j as int].0, zrows[j as int].1, zrows[j as int].2, d3 as int, label3@),
                ));
            }
            j += 1;
        }
        proof {
            assert(zrows.take(zrows.len() as int) =~= zrows);
            assert(spec_three_rows(rs as int, re as int, *t, strand, tts_w as int, maxlb as int)
                == spec_tag_rows(zrows, d3 as int, label3@));
            assert(rows == rows_before3 + spec_three_rows(
                rs as int,
                re as int,
                *t,
                strand,
                tts_w as int,
                maxlb as int,
            ));
        }
    } else {
        proof {
            assert(spec_three_rows(rs as int, re as int, *t, strand, tts_w as int, maxlb as int)
                =~= Seq::<SpecTransRow>::empty());
            assert(rows =~= rows_before3 + spec_three_rows(
                rs as int,
                re as int,
                *t,
                strand,
                tts_w as int,
                maxlb as int,
            ));
        }
    }

    proof {
        assert(rows =~= spec_transcript_rows(
            rs as int,
            re as int,
            *t,
            strand,
            tss_w as int,
            tts_w as int,
            prom_w as int,
            maxlb as int,
        ));
    }
    out
}

/// One driver row: which gene (by index), which transcript (by index),
/// and the classification row itself.
pub type SpecDriverRow = (int, int, SpecTransRow);

/// The rows of the first `upto` transcripts of one gene, tagged with the
/// gene and transcript indices.
pub open spec fn spec_transcripts_rows(
    g: Gene,
    gi: int,
    upto: int,
    rs: int,
    re: int,
    tss_w: int,
    tts_w: int,
    prom_w: int,
    maxlb: int,
) -> Seq<SpecDriverRow>
    decreases upto,
{
    if upto <= 0 {
        Seq::empty()
    } else {
        let ti = upto - 1;
        spec_transcripts_rows(g, gi, ti, rs, re, tss_w, tts_w, prom_w, maxlb)
            + spec_transcript_rows(
            rs,
            re,
            g.transcripts@[ti],
            g.strand,
            tss_w,
            tts_w,
            prom_w,
            maxlb,
        ).map_values(|r: SpecTransRow| (gi, ti, r))
    }
}

/// What one gene contributes: nothing when it ends too far behind the
/// region, its transcripts' rows otherwise.
pub open spec fn spec_gene_window_rows(
    g: Gene,
    gi: int,
    rs: int,
    re: int,
    tss_w: int,
    tts_w: int,
    prom_w: int,
    maxlb: int,
) -> Seq<SpecDriverRow> {
    if g.end < rs - maxlb {
        Seq::empty()
    } else {
        spec_transcripts_rows(
            g,
            gi,
            g.transcripts@.len() as int,
            rs,
            re,
            tss_w,
            tts_w,
            prom_w,
            maxlb,
        )
    }
}

/// The rows of the whole window: genes are scanned from index `i` until
/// the first gene starting past the region's lookahead bound; with the
/// genes sorted by start no gene beyond that point can contribute.
pub open spec fn spec_window_rows(
    genes: Seq<Gene>,
    i: int,
    rs: int,
    re: int,
    tss_w: int,
    tts_w: int,
    prom_w: int,
    maxlb: int,
) -> Seq<SpecDriverRow>
    decreases genes.len() - i,
{
    if i < 0 || i >= genes.len() {
        Seq::empty()
    } else if genes[i].start > re + maxlb {
        Seq::empty()
    } else {
        spec_gene_window_rows(genes[i], i, rs, re, tss_w, tts_w, prom_w, maxlb)
            + spec_window_rows(genes, i + 1, rs, re, tss_w, tts_w, prom_w, maxlb)
    }
}

/// The candidates realize the driver rows one for one.
pub open spec fn spec_cands_match_window(
    cs: Seq<Candidate>,
    rows: Seq<SpecDriverRow>,
    rs: i64,
    re: i64,
    genes: Seq<Gene>,
) -> bool {
    &&& cs.len() == rows.len()
    &&& forall|i: int|
        0 <= i < cs.len() ==> {
            let gi = (#[trigger] rows[i]).0;
            let ti = rows[i].1;
            &&& 0 <= gi < genes.len()
            &&& 0 <= ti < genes[gi].transcripts@.len()
            &&& spec_cand_matches(cs[i], rows[i].2, rs, re, genes[gi], genes[gi].transcripts@[ti])
        }
}

/// The first index whose gene starts at or after the bound.
pub open spec fn spec_lower_idx(genes: Seq<Gene>, lb: int) -> int
    decreases genes.len(),
{
    if genes.len() == 0 {
        0
    } else if genes[0].start >= lb {
        0
    } else {
        1 + spec_lower_idx(genes.skip(1), lb)
    }
}

/// `spec_lower_idx` is the first index at or after the bound.
pub proof fn lemma_lower_idx_props(genes: Seq<Gene>, lb: int)
    ensures
        0 <= spec_lower_idx(genes, lb) <= genes.len(),
        forall|j: int| 0 <= j < spec_lower_idx(genes, lb) ==> (#[trigger] genes[j]).start < lb,
        spec_lower_idx(genes, lb) < genes.len() ==> genes[spec_lower_idx(genes, lb)].start >= lb,
    decreases genes.len(),
{
    if genes.len() > 0 && genes[0].start < lb {
        lemma_lower_idx_props(genes.skip(1), lb);
        let li = spec_lower_idx(genes, lb);
        assert forall|j: int| 0 <= j < li implies (#[trigger] genes[j]).start < lb by {
            if j > 0 {
                assert(genes.skip(1)[j - 1] == genes[j]);
            }
        }
        if li < genes.len() {
            assert(genes.skip(1)[li - 1] == genes[li]);
        }
    }
}

/// Binary search for the first gene whose start is at or after the bound;
/// used to advance the window's lower edge as the regions move forward.
pub fn find_search_start_index(genes: &Vec<Gene>, lower_bound: i64) -> (r: usize)
    requires
        spec_genes_sorted(genes@),
    ensures
        r == spec_lower_idx(genes@, lower_bound as int),
{
    let mut lo: usize = 0;
    let mut hi: usize = genes.len();
    while lo < hi
        invariant
            0 <= lo <= hi <= genes@.len(),
            spec_genes_sorted(genes@),
            forall|j: int| 0 <= j < lo ==> (#[trigger] genes@[j]).start < lower_bound,
            forall|j: int| hi <= j < genes@.len() ==> (#[trigger] genes@[j]).start >= lower_bound,
        decreases hi - lo,
    {
        let mid = lo + (hi - lo) / 2;
        if genes[mid].start < lower_bound {
            proof {
                assert forall|j: int| 0 <= j < mid + 1 implies (#[trigger] genes@[j]).start
                    < lower_bound by {
                    assert(genes@[j].start <= genes@[mid as int].start);
                }
            }
            lo = mid + 1;
        } else {
            proof {
                assert forall|j: int| mid <= j < genes@.len() implies (#[trigger] genes@[j]).start
                    >= lower_bound by {
                    assert(genes@[mid as int].start <= genes@[j].start);
                }
            }
            hi = mid;
        }
    }
    proof {
        lemma_lower_idx_props(genes@, lower_bound as int);
        let li = spec_lower_idx(genes@, lower_bound as int);
        if li < lo {
            assert(genes@[li].start < lower_bound);
        }
        if lo < li {
            assert(genes@[lo as int].start < lower_bound);
        }
    }
    lo
}

/// All raw candidates for one region: every transcript of every gene in
/// the window, classified; genes are scanned from `last_index` and the
/// scan stops at the first gene starting past the lookahead bound.
pub fn match_region_to_genes(
    region: &Region,
    genes: &Vec<Gene>,
    config: &Config,
    last_index: usize,
) -> (r: Vec<Candidate>)
    requires
        coord_ok(region.start as int),
        coord_ok(region.end as int),
        spec_genes_ok(genes@),
        config.wf(),
        last_index <= genes@.len(),
    ensures
        ({
            let maxlb = vstd::math::max(
                config.distance as int,
                vstd::math::max(
                    config.tss as int,
                    vstd::math::max(config.tts as int, config.promoter as int),
                ),
            );
            spec_cands_match_window(
                r@,
                spec_window_rows(
                    genes@,
                    last_index as int,
                    region.start as int,
                    region.end as int,
                    config.tss as int,
                    config.tts as int,
                    config.promoter as int,
                    maxlb,
                ),
                region.start,
                region.end,
                genes@,
            )
        }),
        spec_cands_wf(r@),
{
    let rs = region.start;
    let re = region.end;
    let maxlb = config.max_lookback_distance();
    let ghost tssw = config.tss as int;
    let ghost ttsw = config.tts as int;
    let ghost promw = config.promoter as int;
    let ghost mlb = maxlb as int;
    let mut out: Vec<Candidate> = Vec::new();
    let ghost mut rows: Seq<SpecDriverRow> = Seq::empty();
    let mut gi: usize = last_index;
    let mut stopped = false;
    while gi < genes.len() && !stopped
        invariant
            last_index <= gi <= genes@.len(),
            coord_ok(rs as int),
            coord_ok(re as int),
            spec_genes_ok(genes@),
            config.wf(),
            rs == region.start,
            re == region.end,
            maxlb as int == mlb,
            mlb == vstd::math::max(
                config.distance as int,
                vstd::math::max(
                    config.tss as int,
                    vstd::math::max(config.tts as int, config.promoter as int),
                ),
            ),
            0 <= mlb <= COORD_LIMIT,
            tssw == config.tss as int,
            ttsw == config.tts as int,
            promw == config.promoter as int,
            spec_cands_match_window(out@, rows, rs, re, genes@),
            spec_cands_wf(out@),
            !stopped ==> spec_window_rows(genes@, last_index as int, rs as int, re as int, tssw, ttsw, promw, mlb)
                == rows + spec_window_rows(genes@, gi as int, rs as int, re as int, tssw, ttsw, promw, mlb),
            stopped ==> spec_window_rows(genes@, last_index as int, rs as int, re as int, tssw, ttsw, promw, mlb)
                == rows,
        decreases genes@.len() - gi, 1int - (if stopped { 1int } else { 0int }),
    {
        let g = &genes[gi];
        if g.start > re + maxlb {
            proof {
                assert(spec_window_rows(genes@, gi as int, rs as int, re as int, tssw, ttsw, promw, mlb)
                    =~= Seq::<SpecDriverRow>::empty());
            }
            stopped = true;
        } else {
            if g.end >= rs - maxlb {
                let nt = g.transcripts.len();
                let mut ti: usize = 0;
                while ti < nt
                    invariant
                        0 <= ti <= nt,
                        gi < genes@.len(),
                        nt == genes@[gi as int].transcripts@.len(),
                        g == &genes@[gi as int],
                        coord_ok(rs as int),
                        coord_ok(re as int),
                        spec_genes_ok(genes@),
                        config.wf(),
                        maxlb as int == mlb,
                        0 <= mlb <= COORD_LIMIT,
                        tssw == config.tss as int,
                        ttsw == config.tts as int,
                        promw == config.promoter as int,
                        spec_cands_match_window(out@, rows, rs, re, genes@),
                        spec_cands_wf(out@),
                        rows == rows.take(rows.len() as int),
                        spec_window_rows(genes@, last_index as int, rs as int, re as int, tssw, ttsw, promw, mlb)
                            == rows.take(rows.len() - spec_transcripts_rows(
                            genes@[gi as int],
                            gi as int,
                            ti as int,
                            rs as int,
                            re as int,
                            tssw,
                            ttsw,
                            promw,
                            mlb,
                        ).len()) + spec_gene_window_rows(genes@[gi as int], gi as int, rs as int, re as int, tssw, ttsw, promw, mlb)
                            + spec_window_rows(genes@, gi as int + 1, rs as int, re as int, tssw, ttsw, promw, mlb),
                        rows.len() >= spec_transcripts_rows(
                            genes@[gi as int],
                            gi as int,
                            ti as int,
                            rs as int,
                            re as int,
                            tssw,
                            ttsw,
                            promw,
                            mlb,
                        ).len(),
                        rows.skip(rows.len() - spec_transcripts_rows(
                            genes@[gi as int],
                            gi as int,
                            ti as int,
                            rs as int,
                            re as int,
                            tssw,
                            ttsw,
                            promw,
                            mlb,
                        ).len()) == spec_transcripts_rows(
                            genes@[gi as int],
                            gi as int,
                            ti as int,
                            rs as int,
                            re as int,
                            tssw,
                            ttsw,
                            promw,
                            mlb,
                        ),
                    decreases nt - ti,
                {
                    let t = &g.transcripts[ti];
                    let cs = transcript_candidates(rs, re, g, t, config.tss, config.tts, config.promoter, maxlb);
                    let ghost trows = spec_transcript_rows(rs as int, re as int, *t, g.strand, tssw, ttsw, promw, mlb);
                    let ghost tagged = trows.map_values(|rr: SpecTransRow| (gi as int, ti as int, rr));
                    let ghost out_before = out@;
                    let ghost rows_before = rows;
                    let mut csm = cs;
                    let ghost csv = csm@;
                    out.append(&mut csm);
                    proof {
                        rows = rows + tagged;
                        assert(csv.len() == tagged.len());
                        assert forall|i: int|
                            0 <= i < out@.len() implies {
                            let gii = (#[trigger] rows[i]).0;
                            let tii = rows[i].1;
                            &&& 0 <= gii < genes@.len()
                            &&& 0 <= tii < genes@[gii].transcripts@.len()
                            &&& spec_cand_matches(out@[i], rows[i].2, rs, re, genes@[gii], genes@[gii].transcripts@[tii])
                        } by {
                            if i < out_before.len() {
                                assert(out@[i] == out_before[i]);
                                assert(rows[i] == rows_before[i]);
                            } else {
                                assert(out@[i] == csv[i - out_before.len()]);
                                assert(rows[i] == tagged[i - out_before.len()]);
                                assert(tagged[i - out_before.len()] == (
                                    gi as int,
                                    ti as int,
                                    trows[i - out_before.len()],
                                ));
                            }
                        }
                        assert(spec_cands_wf(out@)) by {
                            assert forall|i: int|
                                0 <= i < out@.len() implies (#[trigger] out@[i]).pctg_region.well_formed()
                                && out@[i].pctg_area.well_formed() by {
                                if i < out_before.len() {
                                    assert(out@[i] == out_before[i]);
                                } else {
                                    assert(out@[i] == csv[i - out_before.len()]);
                                }
                            }
                        }
                        assert(spec_transcripts_rows(genes@[gi as int], gi as int, ti as int + 1, rs as int, re as int, tssw, ttsw, promw, mlb)
                            == spec_transcripts_rows(genes@[gi as int], gi as int, ti as int, rs as int, re as int, tssw, ttsw, promw, mlb) + tagged);
                        assert(rows.take(rows.len() - spec_transcripts_rows(genes@[gi as int], gi as int, ti as int + 1, rs as int, re as int, tssw, ttsw, promw, mlb).len())
                            =~= rows_before.take(rows_before.len() - spec_transcripts_rows(genes@[gi as int], gi as int, ti as int, rs as int, re as int, tssw, ttsw, promw, mlb).len()));
                        assert(rows.skip(rows.len() - spec_transcripts_rows(genes@[gi as int], gi as int, ti as int + 1, rs as int, re as int, tssw, ttsw, promw, mlb).len())
                            =~= spec_transcripts_rows(genes@[gi as int], gi as int, ti as int, rs as int, re as int, tssw, ttsw, promw, mlb) + tagged);
                        assert(rows == rows.take(rows.len() as int));
                    }
                    ti += 1;
                }
                proof {
                    assert(spec_gene_window_rows(genes@[gi as int], gi as int, rs as int, re as int, tssw, ttsw, promw, mlb)
                        == spec_transcripts_rows(genes@[gi as int], gi as int, nt as int, rs as int, re as int, tssw, ttsw, promw, mlb));
                    assert(rows.take(rows.len() - spec_transcripts_rows(genes@[gi as int], gi as int, nt as int, rs as int, re as int, tssw, ttsw, promw, mlb).len())
                        + spec_gene_window_rows(genes@[gi as int], gi as int, rs as int, re as int, tssw, ttsw, promw, mlb) =~= rows);
                }
            } else {
                proof {
                    assert(spec_gene_window_rows(genes@[gi as int], gi as int, rs as int, re as int, tssw, ttsw, promw, mlb)
                        =~= Seq::<SpecDriverRow>::empty());
                    assert(rows + spec_gene_window_rows(genes@[gi as int], gi as int, rs as int, re as int, tssw, ttsw, promw, mlb) =~= rows);
                }
            }
            proof {
                assert(spec_window_rows(genes@, gi as int, rs as int, re as int, tssw, ttsw, promw, mlb)
                    == spec_gene_window_rows(genes@[gi as int], gi as int, rs as int, re as int, tssw, ttsw, promw, mlb)
                    + spec_window_rows(genes@, gi as int + 1, rs as int, re as int, tssw, ttsw, promw, mlb));
            }
            gi += 1;
        }
    }
    proof {
        if !stopped {
            assert(spec_window_rows(genes@, gi as int, rs as int, re as int, tssw, ttsw, promw, mlb)
                =~= Seq::<SpecDriverRow>::empty());
        }
        assert(rows == spec_window_rows(genes@, last_index as int, rs as int, re as int, tssw, ttsw, promw, mlb));
    }
    out
}

/// The transcript identifier of each candidate.
pub open spec fn spec_keys_transcript(cands: Seq<Candidate>) -> Seq<Seq<char>> {
    cands.map_values(|c: Candidate| c.transcript@)
}

/// The gene identifier of each candidate.
pub open spec fn spec_keys_gene(cands: Seq<Candidate>) -> Seq<Seq<char>> {
    cands.map_values(|c: Candidate| c.gene@)
}

/// The distinct keys, in first-occurrence order.
pub open spec fn spec_distinct_keys(keys: Seq<Seq<char>>) -> Seq<Seq<char>>
    decreases keys.len(),
{
    if keys.len() == 0 {
        Seq::empty()
    } else {
        let p = spec_distinct_keys(keys.drop_last());
        if p.contains(keys.last()) {
            p
        } else {
            p.push(keys.last())
        }
    }
}

/// The positions carrying key `k`, in order.
pub open spec fn spec_key_positions(keys: Seq<Seq<char>>, k: Seq<char>) -> Seq<usize>
    decreases keys.len(),
{
    if keys.len() == 0 {
        Seq::empty()
    } else {
        let p = spec_key_positions(keys.drop_last(), k);
        if keys.last() == k {
            p.push((keys.len() - 1) as usize)
        } else {
            p
        }
    }
}

/// The groups: one per distinct key, in first-occurrence order, each
/// holding the positions that carry the key.
pub open spec fn spec_groups_for(keys: Seq<Seq<char>>) -> Seq<Seq<usize>> {
    spec_distinct_keys(keys).map_values(|k: Seq<char>| spec_key_positions(keys, k))
}

/// Every position of a key group is in bounds, and a key that occurs has
/// a non-empty group.
pub proof fn lemma_key_positions_props(keys: Seq<Seq<char>>, k: Seq<char>)
    ensures
        forall|i: int|
            0 <= i < spec_key_positions(keys, k).len() ==> (#[trigger] spec_key_positions(
                keys,
                k,
            )[i]) < keys.len(),
        keys.contains(k) ==> spec_key_positions(keys, k).len() >= 1,
    decreases keys.len(),
{
    if keys.len() > 0 {
        lemma_key_positions_props(keys.drop_last(), k);
        if keys.contains(k) && keys.last() != k {
            let w = choose|w: int| 0 <= w < keys.len() && keys[w] == k;
            assert(keys.drop_last()[w] == k);
        }
        let ps = spec_key_positions(keys, k);
        let pp = spec_key_positions(keys.drop_last(), k);
        assert forall|i: int| 0 <= i < ps.len() implies (#[trigger] ps[i]) < keys.len() by {
            if keys.last() == k {
                if i < pp.len() {
                    assert(ps[i] == pp[i]);
                }
            } else {
                assert(ps[i] == pp[i]);
            }
        }
    }
}

/// Every member of a distinct-key list occurs among the keys.
pub proof fn lemma_distinct_keys_occur(keys: Seq<Seq<char>>)
    ensures
        forall|i: int|
            0 <= i < spec_distinct_keys(keys).len() ==> keys.contains(
                #[trigger] spec_distinct_keys(keys)[i],
            ),
    decreases keys.len(),
{
    if keys.len() > 0 {
        lemma_distinct_keys_occur(keys.drop_last());
        let p = spec_distinct_keys(keys.drop_last());
        assert forall|i: int|
            0 <= i < spec_distinct_keys(keys).len() implies keys.contains(
            #[trigger] spec_distinct_keys(keys)[i],
        ) by {
            if i < p.len() {
                assert(keys.drop_last().contains(p[i]));
                let w = choose|w: int| 0 <= w < keys.drop_last().len() && keys.drop_last()[w] == p[i];
                assert(keys[w] == p[i]);
            } else {
                assert(keys[keys.len() - 1] == keys.last());
            }
        }
    }
}

/// Groups the candidates by transcript identifier, in first-occurrence
/// order.
fn group_by_transcript(cands: &Vec<Candidate>) -> (groups: Vec<Vec<usize>>)
    ensures
        spec_groups_view(groups@) == spec_groups_for(spec_keys_transcript(cands@)),
{
    let ghost keys = spec_keys_transcript(cands@);
    let n = cands.len();
    // First pass: one representative index per distinct key.
    let mut reps: Vec<usize> = Vec::new();
    let mut i: usize = 0;
    while i < n
        invariant
            0 <= i <= n,
            n == cands@.len(),
            keys == spec_keys_transcript(cands@),
            reps@.len() == spec_distinct_keys(keys.take(i as int)).len(),
            forall|r: int| 0 <= r < reps@.len() ==> (#[trigger] reps@[r]) < i,
            forall|r: int|
                0 <= r < reps@.len() ==> keys[(#[trigger] reps@[r]) as int]
                    == spec_distinct_keys(keys.take(i as int))[r],
        decreases n - i,
    {
        let ghost dk = spec_distinct_keys(keys.take(i as int));
        let mut found = false;
        let mut r: usize = 0;
        while r < reps.len() && !found
            invariant
                0 <= r <= reps@.len(),
                n == cands@.len(),
                i < n,
                keys == spec_keys_transcript(cands@),
                forall|q: int| 0 <= q < reps@.len() ==> (#[trigger] reps@[q]) < i,
                forall|q: int|
                    0 <= q < reps@.len() ==> keys[(#[trigger] reps@[q]) as int] == dk[q],
                reps@.len() == dk.len(),
                found ==> dk.contains(keys[i as int]),
                !found ==> forall|q: int| 0 <= q < r ==> dk[q] != keys[i as int],
            decreases reps@.len() - r, 1int - (if found { 1int } else { 0int }),
        {
            if str_eq(cands[reps[r]].transcript.as_str(), cands[i].transcript.as_str()) {
                proof {
                    assert(keys[reps@[r as int] as int] == keys[i as int]);
                }
                found = true;
            } else {
                r += 1;
            }
        }
        proof {
            assert(keys.take(i as int + 1).drop_last() =~= keys.take(i as int));
            assert(keys.take(i as int + 1).last() == keys[i as int]);
            if !found {
                if dk.contains(keys[i as int]) {
                    let w = choose|w: int| 0 <= w < dk.len() && dk[w] == keys[i as int];
                }
                assert(!dk.contains(keys[i as int]));
            }
        }
        if !found {
            reps.push(i);
        }
        i += 1;
    }
    proof {
        assert(keys.take(n as int) =~= keys);
    }
    // Second pass: collect the positions of each representative's key.
    let ghost dk = spec_distinct_keys(keys);
    let mut groups: Vec<Vec<usize>> = Vec::new();
    let mut r: usize = 0;
    while r < reps.len()
        invariant
            0 <= r <= reps@.len(),
            n == cands@.len(),
            keys == spec_keys_transcript(cands@),
            dk == spec_distinct_keys(keys),
            reps@.len() == dk.len(),
            forall|q: int| 0 <= q < reps@.len() ==> (#[trigger] reps@[q]) < n,
            forall|q: int| 0 <= q < reps@.len() ==> keys[(#[trigger] reps@[q]) as int] == dk[q],
            groups@.len() == r,
            forall|q: int|
                0 <= q < r ==> (#[trigger] groups@[q])@ == spec_key_positions(keys, dk[q]),
        decreases reps@.len() - r,
    {
        let mut g: Vec<usize> = Vec::new();
        let mut i: usize = 0;
        while i < n
            invariant
                0 <= i <= n,
                r < reps@.len(),
                n == cands@.len(),
                keys == spec_keys_transcript(cands@),
                reps@[r as int] < n,
                keys[reps@[r as int] as int] == dk[r as int],
                g@ == spec_key_positions(keys.take(i as int), dk[r as int]),
            decreases n - i,
        {
            proof {
                assert(keys.take(i as int + 1).drop_last() =~= keys.take(i as int));
                assert(keys.take(i as int + 1).last() == keys[i as int]);
            }
            if str_eq(cands[i].transcript.as_str(), cands[reps[r]].transcript.as_str()) {
                g.push(i);
            }
            i += 1;
        }
        proof {
            assert(keys.take(n as int) =~= keys);
        }
        groups.push(g);
        r += 1;
    }
    proof {
        assert(spec_groups_view(groups@) =~= spec_groups_for(keys));
    }
    groups
}

/// Groups the candidates by gene identifier, in first-occurrence order.
fn group_by_gene(cands: &Vec<Candidate>) -> (groups: Vec<Vec<usize>>)
    ensures
        spec_groups_view(groups@) == spec_groups_for(spec_keys_gene(cands@)),
{
    let ghost keys = spec_keys_gene(cands@);
    let n = cands.len();
    let mut reps: Vec<usize> = Vec::new();
    let mut i: usize = 0;
    while i < n
        invariant
            0 <= i <= n,
            n == cands@.len(),
            keys == spec_keys_gene(cands@),
            reps@.len() == spec_distinct_keys(keys.take(i as int)).len(),
            forall|r: int| 0 <= r < reps@.len() ==> (#[trigger] reps@[r]) < i,
            forall|r: int|
                0 <= r < reps@.len() ==> keys[(#[trigger] reps@[r]) as int]
                    == spec_distinct_keys(keys.take(i as int))[r],
        decreases n - i,
    {
        let ghost dk = spec_distinct_keys(keys.take(i as int));
        let mut found = false;
        let mut r: usize = 0;
        while r < reps.len() && !found
            invariant
                0 <= r <= reps@.len(),
                n == cands@.len(),
                i < n,
                keys == spec_keys_gene(cands@),
                forall|q: int| 0 <= q < reps@.len() ==> (#[trigger] reps@[q]) < i,
                forall|q: int|
                    0 <= q < reps@.len() ==> keys[(#[trigger] reps@[q]) as int] == dk[q],
                reps@.len() == dk.len(),
                found ==> dk.contains(keys[i as int]),
                !found ==> forall|q: int| 0 <= q < r ==> dk[q] != keys[i as int],
            decreases reps@.len() - r, 1int - (if found { 1int } else { 0int }),
        {
            if str_eq(cands[reps[r]].gene.as_str(), cands[i].gene.as_str()) {
                proof {
                    assert(keys[reps@[r as int] as int] == keys[i as int]);
                }
                found = true;
            } else {
                r += 1;
            }
        }
        proof {
            assert(keys.take(i as int + 1).drop_last() =~= keys.take(i as int));
            assert(keys.take(i as int + 1).last() == keys[i as int]);
            if !found {
                if dk.contains(keys[i as int]) {
                    let w = choose|w: int| 0 <= w < dk.len() && dk[w] == keys[i as int];
                }
                assert(!dk.contains(keys[i as int]));
            }
        }
        if !found {
            reps.push(i);
        }
        i += 1;
    }
    proof {
        assert(keys.take(n as int) =~= keys);
    }
    let ghost dk = spec_distinct_keys(keys);
    let mut groups: Vec<Vec<usize>> = Vec::new();
    let mut r: usize = 0;
    while r < reps.len()
        invariant
            0 <= r <= reps@.len(),
            n == cands@.len(),
            keys == spec_keys_gene(cands@),
            dk == spec_distinct_keys(keys),
            reps@.len() == dk.len(),
            forall|q: int| 0 <= q < reps@.len() ==> (#[trigger] reps@[q]) < n,
            forall|q: int| 0 <= q < reps@.len() ==> keys[(#[trigger] reps@[q]) as int] == dk[q],
            groups@.len() == r,
            forall|q: int|
                0 <= q < r ==> (#[trigger] groups@[q])@ == spec_key_positions(keys, dk[q]),
        decreases reps@.len() - r,
    {
        let mut g: Vec<usize> = Vec::new();
        let mut i: usize = 0;
        while i < n
            invariant
                0 <= i <= n,
                r < reps@.len(),
                n == cands@.len(),
                keys == spec_keys_gene(cands@),
                reps@[r as int] < n,
                keys[reps@[r as int] as int] == dk[r as int],
                g@ == spec_key_positions(keys.take(i as int), dk[r as int]),
            decreases n - i,
        {
            proof {
                assert(keys.take(i as int + 1).drop_last() =~= keys.take(i as int));
                assert(keys.take(i as int + 1).last() == keys[i as int]);
            }
            if str_eq(cands[i].gene.as_str(), cands[reps[r]].gene.as_str()) {
                g.push(i);
            }
            i += 1;
        }
        proof {
            assert(keys.take(n as int) =~= keys);
        }
        groups.push(g);
        r += 1;
    }
    proof {
        assert(spec_groups_view(groups@) =~= spec_groups_for(keys));
    }
    groups
}

/// What the aggregation step returns for a candidate list, by level:
/// exon-level reports pass through unchanged; transcript-level reports
/// resolve each transcript group by thresholds and priority; gene-level
/// reports resolve by transcript first and then merge per gene.
pub open spec fn spec_processed(cands: Seq<Candidate>, c: Config, out: Seq<Candidate>) -> bool {
    match c.level {
        ReportLevel::Exon => out == cands,
        ReportLevel::Transcript => out == spec_apply_rules(
            cands,
            spec_groups_for(spec_keys_transcript(cands)),
            c.perc_region,
            c.perc_area,
            c.rules@,
        ),
        ReportLevel::Gene => {
            let mid = spec_apply_rules(
                cands,
                spec_groups_for(spec_keys_transcript(cands)),
                c.perc_region,
                c.perc_area,
                c.rules@,
            );
            let ggroups = spec_groups_for(spec_keys_gene(mid));
            &&& out.len() == ggroups.len()
            &&& forall|k: int|
                0 <= k < ggroups.len() ==> spec_gene_row(mid, #[trigger] ggroups[k], c.rules@, out[k])
        },
    }
}

/// Dispatches the raw candidates to the requested report level.
pub fn process_candidates_for_output(candidates: Vec<Candidate>, config: &Config) -> (r: Vec<
    Candidate,
>)
    requires
        spec_cands_wf(candidates@),
    ensures
        spec_processed(candidates@, *config, r@),
{
    match config.level {
        ReportLevel::Exon => candidates,
        ReportLevel::Transcript => {
            let groups = group_by_transcript(&candidates);
            proof {
                lemma_groups_for_ok(spec_keys_transcript(candidates@));
            }
            apply_rules(&candidates, &groups, &config.perc_region, &config.perc_area, &config.rules)
        },
        ReportLevel::Gene => {
            let groups = group_by_transcript(&candidates);
            proof {
                lemma_groups_for_ok(spec_keys_transcript(candidates@));
            }
            let mid = apply_rules(
                &candidates,
                &groups,
                &config.perc_region,
                &config.perc_area,
                &config.rules,
            );
            let ggroups = group_by_gene(&mid);
            proof {
                lemma_groups_for_ok(spec_keys_gene(mid@));
                lemma_groups_for_nonempty(spec_keys_gene(mid@));
                assert forall|k: int|
                    0 <= k < ggroups@.len() implies (#[trigger] ggroups@[k])@.len() >= 1 by {
                    assert(spec_groups_view(ggroups@)[k] == ggroups@[k]@);
                }
            }
            select_transcript(&mid, &ggroups, &config.rules)
        },
    }
}

/// Every group produced by key grouping holds in-bounds positions.
pub proof fn lemma_groups_for_ok(keys: Seq<Seq<char>>)
    ensures
        spec_groups_ok(spec_groups_for(keys), keys.len() as int),
{
    let gs = spec_groups_for(keys);
    assert forall|k: int, i: int|
        0 <= k < gs.len() && 0 <= i < gs[k].len() implies #[trigger] gs[k][i] < keys.len() by {
        assert(gs[k] == spec_key_positions(keys, spec_distinct_keys(keys)[k]));
        lemma_key_positions_props(keys, spec_distinct_keys(keys)[k]);
    }
}

/// Every group produced by key grouping is non-empty.
pub proof fn lemma_groups_for_nonempty(keys: Seq<Seq<char>>)
    ensures
        forall|k: int|
            0 <= k < spec_groups_for(keys).len() ==> (#[trigger] spec_groups_for(keys)[k]).len()
                >= 1,
{
    let gs = spec_groups_for(keys);
    lemma_distinct_keys_occur(keys);
    assert forall|k: int| 0 <= k < gs.len() implies (#[trigger] gs[k]).len() >= 1 by {
        assert(gs[k] == spec_key_positions(keys, spec_distinct_keys(keys)[k]));
        assert(keys.contains(spec_distinct_keys(keys)[k]));
        lemma_key_positions_props(keys, spec_distinct_keys(keys)[k]);
    }
}

/// The lookback limit a configuration implies: the larger of the
/// reporting distance and the widest configured zone.
pub open spec fn spec_max_lookback(c: Config) -> int {
    vstd::math::max(
        c.distance as int,
        vstd::math::max(c.tss as int, vstd::math::max(c.tts as int, c.promoter as int)),
    )
}

/// The window rows of one region: the scan starts at the first gene that
/// could still reach the region (its start at least the region start less
/// the lookback limit and the longest gene length).
pub open spec fn spec_region_window_rows(
    genes: Seq<Gene>,
    region: Region,
    c: Config,
    max_length: int,
) -> Seq<SpecDriverRow> {
    spec_window_rows(
        genes,
        spec_lower_idx(genes, region.start - spec_max_lookback(c) - max_length),
        region.start as int,
        region.end as int,
        c.tss as int,
        c.tts as int,
        c.promoter as int,
        spec_max_lookback(c),
    )
}

/// What `match_regions_to_genes` returns: one entry per region, carrying
/// a copy of the region and the resolved rows of some candidate list that
/// realizes the region's window rows.
pub open spec fn spec_match_entry_ok(
    entry: (Region, Vec<Candidate>),
    region: Region,
    genes: Seq<Gene>,
    c: Config,
    max_length: int,
) -> bool {
    &&& spec_region_like(entry.0, region)
    &&& exists|raw: Seq<Candidate>|
        #[trigger] spec_cands_match_window(
            raw,
            spec_region_window_rows(genes, region, c, max_length),
            region.start,
            region.end,
            genes,
        ) && spec_processed(raw, c, entry.1@)
}

pub open spec fn spec_match_output_ok(
    r: Seq<(Region, Vec<Candidate>)>,
    regions: Seq<Region>,
    genes: Seq<Gene>,
    c: Config,
    max_length: int,
) -> bool {
    &&& r.len() == regions.len()
    &&& forall|i: int|
        0 <= i < r.len() ==> spec_match_entry_ok(
            #[trigger] r[i],
            regions[i],
            genes,
            c,
            max_length,
        )
}

/// Matches a sorted stream of regions against a sorted gene list: for
/// each region, the window of genes that could interact with it is found
/// by binary search (`max_length` bounds how long any gene runs), the raw
/// candidates are collected and resolved to the configured report level,
/// and the region is paired with its resolved rows.
pub fn match_regions_to_genes(
    regions: &Vec<Region>,
    genes: &Vec<Gene>,
    config: &Config,
    max_length: i64,
) -> (r: Vec<(Region, Vec<Candidate>)>)
    requires
        forall|i: int|
            0 <= i < regions@.len() ==> coord_ok((#[trigger] regions@[i]).start as int) && coord_ok(
                regions@[i].end as int,
            ),
        spec_genes_ok(genes@),
        spec_genes_sorted(genes@),
        config.wf(),
        0 <= max_length <= COORD_LIMIT,
    ensures
        spec_match_output_ok(r@, regions@, genes@, *config, max_length as int),
{
    let maxlb = config.max_lookback_distance();
    let mut out: Vec<(Region, Vec<Candidate>)> = Vec::new();
    let mut i: usize = 0;
    while i < regions.len()
        invariant
            0 <= i <= regions@.len(),
            forall|j: int|
                0 <= j < regions@.len() ==> coord_ok((#[trigger] regions@[j]).start as int)
                    && coord_ok(regions@[j].end as int),
            spec_genes_ok(genes@),
            spec_genes_sorted(genes@),
            config.wf(),
            0 <= max_length <= COORD_LIMIT,
            maxlb as int == vstd::math::max(
                config.distance as int,
                vstd::math::max(
                    config.tss as int,
                    vstd::math::max(config.tts as int, config.promoter as int),
                ),
            ),
            0 <= maxlb <= COORD_LIMIT,
            out@.len() == i,
            forall|j: int|
                0 <= j < i ==> spec_match_entry_ok(
                    #[trigger] out@[j],
                    regions@[j],
                    genes@,
                    *config,
                    max_length as int,
                ),
        decreases regions@.len() - i,
    {
        let region = &regions[i];
        let lb = region.start - maxlb - max_length;
        let idx = find_search_start_index(genes, lb);
        proof {
            lemma_lower_idx_props(genes@, lb as int);
        }
        let raw = match_region_to_genes(region, genes, config, idx);
        let ghost raw_view = raw@;
        let processed = process_candidates_for_output(raw, config);
        let ghost out_before = out@;
        out.push((region.clone(), processed));
        proof {
            assert forall|j: int| 0 <= j < i + 1 implies spec_match_entry_ok(
                #[trigger] out@[j],
                regions@[j],
                genes@,
                *config,
                max_length as int,
            ) by {
                if j < i {
                    assert(out@[j] == out_before[j]);
                } else {
                    assert(out@[j].1@ == processed@);
                    assert(spec_cands_match_window(
                        raw_view,
                        spec_region_window_rows(genes@, regions@[j], *config, max_length as int),
                        regions@[j].start,
                        regions@[j].end,
                        genes@,
                    ) && spec_processed(raw_view, *config, (out@[j]).1@));
                }
            }
        }
        i += 1;
    }
    out
}

/// Exon rows carry only the first-exon and gene-body zones, and the
/// first-exon zone at most once (only the transcriptionally-first exon
/// can contribute it).
pub proof fn lemma_exon_rows_areas(rs: int, re: int, exons: Seq<Exon>, strand: Strand, upto: int)
    ensures
        ({
            let rows = spec_exon_rows(rs, re, exons, strand, upto);
            &&& forall|i: int|
                0 <= i < rows.len() ==> ((#[trigger] rows[i]).0 == Area::FirstExon || rows[i].0
                    == Area::GeneBody)
            &&& forall|i: int, j: int|
                0 <= i < j < rows.len() ==> !(rows[i].0 == Area::FirstExon && rows[j].0
                    == Area::FirstExon)
            &&& (upto <= spec_first_pos(strand, exons.len() as int) ==> forall|i: int|
                0 <= i < rows.len() ==> (#[trigger] rows[i]).0 != Area::FirstExon)
        }),
    decreases upto,
{
    if upto > 0 {
        lemma_exon_rows_areas(rs, re, exons, strand, upto - 1);
        let prefix = spec_exon_rows(rs, re, exons, strand, upto - 1);
        let rows = spec_exon_rows(rs, re, exons, strand, upto);
        let fp = spec_first_pos(strand, exons.len() as int);
        let e = exons[upto - 1];
        let ov = crate::matcher::spec_zone_overlap(e.start as int, e.end as int, rs, re);
        if ov >= 1 {
            assert(rows.len() == prefix.len() + 1);
            assert(forall|i: int| 0 <= i < prefix.len() ==> rows[i] == prefix[i]);
            assert(rows[rows.len() - 1].0 == if upto - 1 == fp {
                Area::FirstExon
            } else {
                Area::GeneBody
            });
            if upto - 1 == fp {
                assert(upto - 1 <= fp);
                assert(forall|i: int|
                    0 <= i < prefix.len() ==> (#[trigger] prefix[i]).0 != Area::FirstExon);
            }
        } else {
            assert(rows == prefix);
        }
    }
}

/// Per transcript, no zone tag is produced twice, with one exception:
/// the gene-body tag repeats once for each additional overlapped exon.
/// In particular a region overlapping a single-exon transcript from one
/// side yields exactly one downstream (or upstream) row, never one per
/// exon.
pub proof fn lemma_transcript_rows_zone_once(
    rs: int,
    re: int,
    t: Transcript,
    strand: Strand,
    tss_w: int,
    tts_w: int,
    prom_w: int,
    maxlb: int,
)
    ensures
        ({
            let rows = spec_transcript_rows(rs, re, t, strand, tss_w, tts_w, prom_w, maxlb);
            forall|i: int, j: int|
                0 <= i < j < rows.len() && (#[trigger] rows[i]).0 == (#[trigger] rows[j]).0
                    ==> rows[i].0 == Area::GeneBody
        }),
{
    let exons = t.exons@;
    let n = exons.len() as int;
    let a = spec_exon_rows(rs, re, exons, strand, n);
    let b = spec_intron_rows(rs, re, t, strand);
    let c = spec_five_rows(rs, re, t, strand, tss_w, prom_w, maxlb);
    let d = spec_three_rows(rs, re, t, strand, tts_w, maxlb);
    let rows = spec_transcript_rows(rs, re, t, strand, tss_w, tts_w, prom_w, maxlb);
    assert(rows == a + b + c + d);
    lemma_exon_rows_areas(rs, re, exons, strand, n);
    // Intron rows: at most one, tagged intron.
    assert(b.len() <= 1);
    assert(forall|i: int| 0 <= i < b.len() ==> (#[trigger] b[i]).0 == Area::Intron);
    // Start-side rows: start-side zones, pairwise distinct.
    assert(forall|i: int|
        0 <= i < c.len() ==> ((#[trigger] c[i]).0 == Area::Tss || c[i].0 == Area::Promoter
            || c[i].0 == Area::Upstream)) by {
        if n > 0 {
            let fe = exons[spec_first_pos(strand, n)];
            let dd = match strand {
                Strand::Positive => fe.start - re,
                Strand::Negative => rs - fe.end,
            };
            let info = TssExonInfo { start: fe.start, end: fe.end, strand, distance: dd as i64 };
            match strand {
                Strand::Positive => {
                    crate::matcher::tss::lemma_hits_start_distinct(
                        rs,
                        re,
                        info.start as int,
                        info.distance as int,
                        tss_w,
                        prom_w,
                    );
                },
                Strand::Negative => {
                    crate::matcher::tss::lemma_hits_start_distinct(
                        2 * (info.end as int) - re,
                        2 * (info.end as int) - rs,
                        info.end as int,
                        info.distance as int,
                        tss_w,
                        prom_w,
                    );
                },
            }
        }
    }
    assert(forall|i: int, j: int| 0 <= i < j < c.len() ==> (#[trigger] c[i]).0 != (
    #[trigger] c[j]).0) by {
        if n > 0 {
            let fe = exons[spec_first_pos(strand, n)];
            let dd = match strand {
                Strand::Positive => fe.start - re,
                Strand::Negative => rs - fe.end,
            };
            let info = TssExonInfo { start: fe.start, end: fe.end, strand, distance: dd as i64 };
            match strand {
                Strand::Positive => {
                    crate::matcher::tss::lemma_hits_start_distinct(
                        rs,
                        re,
                        info.start as int,
                        info.distance as int,
                        tss_w,
                        prom_w,
                    );
                },
                Strand::Negative => {
                    crate::matcher::tss::lemma_hits_start_distinct(
                        2 * (info.end as int) - re,
                        2 * (info.end as int) - rs,
                        info.end as int,
                        info.distance as int,
                        tss_w,
                        prom_w,
                    );
                },
            }
        }
    }
    // End-side rows: end-side zones, pairwise distinct.
    assert(forall|i: int|
        0 <= i < d.len() ==> ((#[trigger] d[i]).0 == Area::Tts || d[i].0 == Area::Downstream))
        by {
        if n > 0 {
            let le = exons[spec_last_pos(strand, n)];
            let dd = match strand {
                Strand::Positive => rs - le.end,
                Strand::Negative => le.start - re,
            };
            let info = TtsExonInfo { start: le.start, end: le.end, strand, distance: dd as i64 };
            match strand {
                Strand::Positive => {
                    crate::matcher::tts::lemma_hits_end_distinct(
                        2 * (info.end as int) - re,
                        2 * (info.end as int) - rs,
                        info.end as int,
                        info.distance as int,
                        tts_w,
                    );
                },
                Strand::Negative => {
                    crate::matcher::tts::lemma_hits_end_distinct(
                        rs,
                        re,
                        info.start as int,
                        info.distance as int,
                        tts_w,
                    );
                },
            }
        }
    }
    assert(forall|i: int, j: int| 0 <= i < j < d.len() ==> (#[trigger] d[i]).0 != (
    #[trigger] d[j]).0) by {
        if n > 0 {
            let le = exons[spec_last_pos(strand, n)];
            let dd = match strand {
                Strand::Positive => rs - le.end,
                Strand::Negative => le.start - re,
            };
            let info = TtsExonInfo { start: le.start, end: le.end, strand, distance: dd as i64 };
            match strand {
                Strand::Positive => {
                    crate::matcher::tts::lemma_hits_end_distinct(
                        2 * (info.end as int) - re,
                        2 * (info.end as int) - rs,
                        info.end as int,
                        info.distance as int,
                        tts_w,
                    );
                },
                Strand::Negative => {
                    crate::matcher::tts::lemma_hits_end_distinct(
                        rs,
                        re,
                        info.start as int,
                        info.distance as int,
                        tts_w,
                    );
                },
            }
        }
    }
    assert forall|i: int, j: int|
        0 <= i < j < rows.len() && (#[trigger] rows[i]).0 == (#[trigger] rows[j]).0 implies rows[i].0
        == Area::GeneBody by {
        let la = a.len();
        let lb = b.len();
        let lc = c.len();
        if i < la {
            assert(rows[i] == a[i]);
        } else if i < la + lb {
            assert(rows[i] == b[i - la]);
        } else if i < la + lb + lc {
            assert(rows[i] == c[i - la - lb]);
        } else {
            assert(rows[i] == d[i - la - lb - lc]);
        }
        if j < la {
            assert(rows[j] == a[j]);
        } else if j < la + lb {
            assert(rows[j] == b[j - la]);
        } else if j < la + lb + lc {
            assert(rows[j] == c[j - la - lb]);
        } else {
            assert(rows[j] == d[j - la - lb - lc]);
        }
    }
}

/// Exon-level reporting passes the candidate list through unchanged, so
/// resolving an already-resolved list a second time is the identity.
pub proof fn lemma_exon_level_idempotent(
    cands: Seq<Candidate>,
    c: Config,
    once: Seq<Candidate>,
    twice: Seq<Candidate>,
)
    requires
        c.level == ReportLevel::Exon,
        spec_processed(cands, c, once),
        spec_processed(once, c, twice),
    ensures
        once == cands,
        twice == once,
{
}

/// Exon rows are empty when no exon meets the region.
proof fn lemma_exon_rows_empty(rs: int, re: int, exons: Seq<Exon>, strand: Strand, upto: int)
    requires
        forall|i: int|
            0 <= i < exons.len() ==> crate::matcher::spec_zone_overlap(
                (#[trigger] exons[i]).start as int,
                exons[i].end as int,
                rs,
                re,
            ) < 1,
        upto <= exons.len(),
    ensures
        spec_exon_rows(rs, re, exons, strand, upto) == Seq::<SpecTransRow>::empty(),
    decreases upto,
{
    if upto > 0 {
        lemma_exon_rows_empty(rs, re, exons, strand, upto - 1);
        let e = exons[upto - 1];
        assert(crate::matcher::spec_zone_overlap(e.start as int, e.end as int, rs, re) < 1);
        assert(spec_exon_rows(rs, re, exons, strand, upto) =~= Seq::<SpecTransRow>::empty());
    }
}

/// A gene that starts past the region's lookahead bound, or ends before
/// its lookback bound, contributes no row from any of its transcripts:
/// exons cannot meet the region, an intron row needs the region inside
/// the transcript, and every proximity anchor lies beyond the lookback
/// limit.
pub proof fn lemma_far_gene_no_rows(
    g: Gene,
    rs: int,
    re: int,
    tss_w: int,
    tts_w: int,
    prom_w: int,
    maxlb: int,
)
    requires
        spec_gene_ok(g),
        maxlb >= 0,
        g.start > re + maxlb || (g.end as int) < rs - maxlb,
    ensures
        forall|ti: int|
            0 <= ti < g.transcripts@.len() ==> spec_transcript_rows(
                rs,
                re,
                #[trigger] g.transcripts@[ti],
                g.strand,
                tss_w,
                tts_w,
                prom_w,
                maxlb,
            ) == Seq::<SpecTransRow>::empty(),
{
    assert forall|ti: int|
        0 <= ti < g.transcripts@.len() implies spec_transcript_rows(
        rs,
        re,
        #[trigger] g.transcripts@[ti],
        g.strand,
        tss_w,
        tts_w,
        prom_w,
        maxlb,
    ) == Seq::<SpecTransRow>::empty() by {
        let t = g.transcripts@[ti];
        let exons = t.exons@;
        let n = exons.len() as int;
        let strand = g.strand;
        assert(spec_transcript_ok(t, g));
        assert forall|i: int|
            0 <= i < exons.len() implies crate::matcher::spec_zone_overlap(
            (#[trigger] exons[i]).start as int,
            exons[i].end as int,
            rs,
            re,
        ) < 1 by {
            assert(g.start <= exons[i].start);
            assert(exons[i].end <= g.end);
        }
        lemma_exon_rows_empty(rs, re, exons, strand, n);
        assert(spec_intron_rows(rs, re, t, strand) =~= Seq::<SpecTransRow>::empty());
        assert(spec_five_rows(rs, re, t, strand, tss_w, prom_w, maxlb) =~= Seq::<
            SpecTransRow,
        >::empty()) by {
            if n > 0 {
                let fe = exons[spec_first_pos(strand, n)];
                assert(g.start <= fe.start);
                assert(fe.end <= g.end);
                assert(fe.start <= fe.end);
            }
        }
        assert(spec_three_rows(rs, re, t, strand, tts_w, maxlb) =~= Seq::<
            SpecTransRow,
        >::empty()) by {
            if n > 0 {
                let le = exons[spec_last_pos(strand, n)];
                assert(g.start <= le.start);
                assert(le.end <= g.end);
                assert(le.start <= le.end);
            }
        }
        assert(spec_transcript_rows(rs, re, t, strand, tss_w, tts_w, prom_w, maxlb)
            =~= Seq::<SpecTransRow>::empty());
    }
}

/// The rows of every gene from index `i` on, with no windowing at all.
pub open spec fn spec_all_rows(
    genes: Seq<Gene>,
    i: int,
    rs: int,
    re: int,
    tss_w: int,
    tts_w: int,
    prom_w: int,
    maxlb: int,
) -> Seq<SpecDriverRow>
    decreases genes.len() - i,
{
    if i < 0 || i >= genes.len() {
        Seq::empty()
    } else {
        spec_transcripts_rows(
            genes[i],
            i,
            genes[i].transcripts@.len() as int,
            rs,
            re,
            tss_w,
            tts_w,
            prom_w,
            maxlb,
        ) + spec_all_rows(genes, i + 1, rs, re, tss_w, tts_w, prom_w, maxlb)
    }
}

/// Transcript rows concatenate to nothing when each transcript's rows are
/// empty.
proof fn lemma_transcripts_rows_empty(
    g: Gene,
    gi: int,
    upto: int,
    rs: int,
    re: int,
    tss_w: int,
    tts_w: int,
    prom_w: int,
    maxlb: int,
)
    requires
        forall|ti: int|
            0 <= ti < g.transcripts@.len() ==> spec_transcript_rows(
                rs,
                re,
                #[trigger] g.transcripts@[ti],
                g.strand,
                tss_w,
                tts_w,
                prom_w,
                maxlb,
            ) == Seq::<SpecTransRow>::empty(),
        upto <= g.transcripts@.len(),
    ensures
        spec_transcripts_rows(g, gi, upto, rs, re, tss_w, tts_w, prom_w, maxlb) == Seq::<
            SpecDriverRow,
        >::empty(),
    decreases upto,
{
    if upto > 0 {
        lemma_transcripts_rows_empty(g, gi, upto - 1, rs, re, tss_w, tts_w, prom_w, maxlb);
        assert(spec_transcript_rows(
            rs,
            re,
            g.transcripts@[upto - 1],
            g.strand,
            tss_w,
            tts_w,
            prom_w,
            maxlb,
        ).map_values(|r: SpecTransRow| (gi, upto - 1, r)) =~= Seq::<SpecDriverRow>::empty());
        assert(spec_transcripts_rows(g, gi, upto, rs, re, tss_w, tts_w, prom_w, maxlb)
            =~= Seq::<SpecDriverRow>::empty());
    }
}

/// Window completeness: with the genes sorted by start, scanning only the
/// window — stopping at the first gene past the lookahead bound and
/// skipping genes that end before the lookback bound — yields exactly the
/// rows of a scan over every gene.  The window search loses no candidate.
pub proof fn lemma_window_rows_complete(
    genes: Seq<Gene>,
    i: int,
    rs: int,
    re: int,
    tss_w: int,
    tts_w: int,
    prom_w: int,
    maxlb: int,
)
    requires
        spec_genes_ok(genes),
        spec_genes_sorted(genes),
        maxlb >= 0,
    ensures
        spec_window_rows(genes, i, rs, re, tss_w, tts_w, prom_w, maxlb) == spec_all_rows(
            genes,
            i,
            rs,
            re,
            tss_w,
            tts_w,
            prom_w,
            maxlb,
        ),
    decreases genes.len() - i,
{
    if i < 0 || i >= genes.len() {
    } else {
        lemma_window_rows_complete(genes, i + 1, rs, re, tss_w, tts_w, prom_w, maxlb);
        let g = genes[i];
        let nt = g.transcripts@.len() as int;
        if g.start > re + maxlb {
            // Every gene from here on starts past the bound, so both scans
            // are empty.
            lemma_far_gene_no_rows(g, rs, re, tss_w, tts_w, prom_w, maxlb);
            lemma_transcripts_rows_empty(g, i, nt, rs, re, tss_w, tts_w, prom_w, maxlb);
            lemma_all_rows_empty_beyond(genes, i + 1, rs, re, tss_w, tts_w, prom_w, maxlb);
            assert(spec_all_rows(genes, i, rs, re, tss_w, tts_w, prom_w, maxlb) =~= Seq::<
                SpecDriverRow,
            >::empty());
        } else if (g.end as int) < rs - maxlb {
            lemma_far_gene_no_rows(g, rs, re, tss_w, tts_w, prom_w, maxlb);
            lemma_transcripts_rows_empty(g, i, nt, rs, re, tss_w, tts_w, prom_w, maxlb);
        }
    }
}

/// Every gene from a start-gated index on contributes nothing.
proof fn lemma_all_rows_empty_beyond(
    genes: Seq<Gene>,
    i: int,
    rs: int,
    re: int,
    tss_w: int,
    tts_w: int,
    prom_w: int,
    maxlb: int,
)
    requires
        spec_genes_ok(genes),
        spec_genes_sorted(genes),
        maxlb >= 0,
        forall|j: int| i <= j < genes.len() ==> (#[trigger] genes[j]).start > re + maxlb,
    ensures
        spec_all_rows(genes, i, rs, re, tss_w, tts_w, prom_w, maxlb) == Seq::<
            SpecDriverRow,
        >::empty(),
    decreases genes.len() - i,
{
    if 0 <= i < genes.len() {
        lemma_all_rows_empty_beyond(genes, i + 1, rs, re, tss_w, tts_w, prom_w, maxlb);
        lemma_far_gene_no_rows(genes[i], rs, re, tss_w, tts_w, prom_w, maxlb);
        lemma_transcripts_rows_empty(
            genes[i],
            i,
            genes[i].transcripts@.len() as int,
            rs,
            re,
            tss_w,
            tts_w,
            prom_w,
            maxlb,
        );
        assert(spec_all_rows(genes, i, rs, re, tss_w, tts_w, prom_w, maxlb) =~= Seq::<
            SpecDriverRow,
        >::empty());
    }
}

} // verus!
