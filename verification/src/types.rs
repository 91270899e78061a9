//! Core data structures of the region-to-gene matcher: strands, zone labels,
//! exons, transcripts, genes, regions, candidates and the report level.

use vstd::prelude::*;
use crate::pct::Pct;
use crate::text::{dec_i64, dec_u64, eq_lower_ascii, spec_dec_int, spec_dec_nat, spec_lower, str_eq};

verus! {

/// Coordinates handled by the matcher are limited to this magnitude so that
/// the mirroring and window arithmetic stays inside `i64`.
pub const COORD_LIMIT: i64 = 0x1000_0000_0000_0000;

pub open spec fn coord_ok(x: int) -> bool {
    -(COORD_LIMIT as int) <= x <= COORD_LIMIT as int
}

/// Strand orientation of a gene.
#[derive(Debug, Clone, Copy, PartialEq, Eq, Hash, Structural)]
pub enum Strand {
    Positive,
    Negative,
}

pub open spec fn spec_strand_tag(s: Strand) -> Seq<char> {
    match s {
        Strand::Positive => "+"@,
        Strand::Negative => "-"@,
    }
}

pub open spec fn spec_strand_of(s: Seq<char>) -> Option<Strand> {
    if s == "+"@ {
        Some(Strand::Positive)
    } else if s == "-"@ {
        Some(Strand::Negative)
    } else {
        None
    }
}

impl Strand {
    /// Parses `+` or `-`; anything else is rejected.
    pub fn from_str(s: &str) -> (r: Option<Strand>)
        ensures
            r == spec_strand_of(s@),
    {
        if str_eq(s, "+") {
            Some(Strand::Positive)
        } else if str_eq(s, "-") {
            Some(Strand::Negative)
        } else {
            None
        }
    }

    pub fn as_str(&self) -> (r: &'static str)
        ensures
            r@ == spec_strand_tag(*self),
    {
        match self {
            Strand::Positive => "+",
            Strand::Negative => "-",
        }
    }
}

/// The error for rejected textual tags (strand, zone, report level).
#[derive(Debug, Clone, Copy, PartialEq, Eq)]
pub struct ParseTagError;

impl core::str::FromStr for Strand {
    type Err = ParseTagError;

    fn from_str(s: &str) -> Result<Strand, ParseTagError> {
        match Strand::from_str(s) {
            Some(v) => Ok(v),
            None => Err(ParseTagError),
        }
    }
}

/// The eight zone labels a candidate can carry.
#[derive(Debug, Clone, Copy, PartialEq, Eq, Hash, PartialOrd, Ord, Structural)]
pub enum Area {
    Tss,
    FirstExon,
    Promoter,
    Tts,
    Intron,
    GeneBody,
    Upstream,
    Downstream,
}

pub open spec fn spec_area_tag(a: Area) -> Seq<char> {
    match a {
        Area::Tss => "TSS"@,
        Area::FirstExon => "1st_EXON"@,
        Area::Promoter => "PROMOTER"@,
        Area::Tts => "TTS"@,
        Area::Intron => "INTRON"@,
        Area::GeneBody => "GENE_BODY"@,
        Area::Upstream => "UPSTREAM"@,
        Area::Downstream => "DOWNSTREAM"@,
    }
}

pub open spec fn spec_area_of(s: Seq<char>) -> Option<Area> {
    if s == "TSS"@ {
        Some(Area::Tss)
    } else if s == "1st_EXON"@ {
        Some(Area::FirstExon)
    } else if s == "PROMOTER"@ {
        Some(Area::Promoter)
    } else if s == "TTS"@ {
        Some(Area::Tts)
    } else if s == "INTRON"@ {
        Some(Area::Intron)
    } else if s == "GENE_BODY"@ {
        Some(Area::GeneBody)
    } else if s == "UPSTREAM"@ {
        Some(Area::Upstream)
    } else if s == "DOWNSTREAM"@ {
        Some(Area::Downstream)
    } else {
        None
    }
}

impl Area {
    /// Parses one of the eight (case-sensitive) zone tags.
    pub fn from_str(s: &str) -> (r: Option<Area>)
        ensures
            r == spec_area_of(s@),
    {
        if str_eq(s, "TSS") {
            Some(Area::Tss)
        } else if str_eq(s, "1st_EXON") {
            Some(Area::FirstExon)
        } else if str_eq(s, "PROMOTER") {
            Some(Area::Promoter)
        } else if str_eq(s, "TTS") {
            Some(Area::Tts)
        } else if str_eq(s, "INTRON") {
            Some(Area::Intron)
        } else if str_eq(s, "GENE_BODY") {
            Some(Area::GeneBody)
        } else if str_eq(s, "UPSTREAM") {
            Some(Area::Upstream)
        } else if str_eq(s, "DOWNSTREAM") {
            Some(Area::Downstream)
        } else {
            None
        }
    }

    pub fn as_str(&self) -> (r: &'static str)
        ensures
            r@ == spec_area_tag(*self),
    {
        match self {
            Area::Tss => "TSS",
            Area::FirstExon => "1st_EXON",
            Area::Promoter => "PROMOTER",
            Area::Tts => "TTS",
            Area::Intron => "INTRON",
            Area::GeneBody => "GENE_BODY",
            Area::Upstream => "UPSTREAM",
            Area::Downstream => "DOWNSTREAM",
        }
    }
}

impl core::str::FromStr for Area {
    type Err = ParseTagError;

    fn from_str(s: &str) -> Result<Area, ParseTagError> {
        match Area::from_str(s) {
            Some(v) => Ok(v),
            None => Err(ParseTagError),
        }
    }
}

/// An exon within a transcript, with inclusive 1-based coordinates.
#[derive(Debug, Clone)]
pub struct Exon {
    pub start: i64,
    pub end: i64,
    /// The transcriptional exon index, rendered in decimal; assigned by
    /// `Transcript::renumber_exons`.
    pub exon_number: Option<String>,
}

impl Exon {
    pub fn new(start: i64, end: i64) -> (r: Exon)
        ensures
            r.start == start,
            r.end == end,
            r.exon_number is None,
    {
        Exon { start, end, exon_number: None }
    }

    /// The number of bases the exon covers (both ends inclusive).
    pub fn length(&self) -> (r: i64)
        requires
            coord_ok(self.start as int),
            coord_ok(self.end as int),
        ensures
            r == self.end - self.start + 1,
    {
        self.end - self.start + 1
    }
}

/// The transcriptional index (1-based) of the exon at position `i` of a
/// sequence of `n` exons sorted by genomic start: on the positive strand the
/// leftmost exon is transcribed first, on the negative strand the rightmost.
pub open spec fn spec_trans_index(strand: Strand, i: int, n: int) -> int {
    match strand {
        Strand::Positive => i + 1,
        Strand::Negative => n - i,
    }
}

/// Exons sorted by genomic start and labeled with their transcriptional
/// index: the well-formed state that `renumber_exons` establishes and the
/// matcher relies on.
pub open spec fn spec_exons_renumbered(exons: Seq<Exon>, strand: Strand) -> bool {
    &&& forall|i: int, j: int|
        0 <= i <= j < exons.len() ==> #[trigger] exons[i].start <= #[trigger] exons[j].start
    &&& forall|i: int|
        0 <= i < exons.len() ==> ((#[trigger] exons[i].exon_number) matches Some(s) && s@
            == spec_dec_nat(spec_trans_index(strand, i, exons.len() as int) as nat))
}

/// A transcript: an identifier, its exons, and a cached bounding interval.
#[derive(Debug, Clone)]
pub struct Transcript {
    pub transcript_id: String,
    pub exons: Vec<Exon>,
    /// Lower bound; starts at the `i64::MAX` sentinel until computed.
    pub start: i64,
    /// Upper bound; starts at the `0` sentinel until computed.
    pub end: i64,
}

impl Transcript {
    pub fn new(transcript_id: String) -> (r: Transcript)
        ensures
            r.transcript_id == transcript_id,
            r.exons@.len() == 0,
            r.start == i64::MAX,
            r.end == 0,
    {
        Transcript { transcript_id, exons: Vec::new(), start: i64::MAX, end: 0 }
    }

    pub fn add_exon(&mut self, exon: Exon)
        ensures
            final(self).exons@ == old(self).exons@.push(exon),
            final(self).transcript_id == old(self).transcript_id,
            final(self).start == old(self).start,
            final(self).end == old(self).end,
    {
        self.exons.push(exon);
    }

    pub fn set_length(&mut self, start: i64, end: i64)
        ensures
            final(self).start == start,
            final(self).end == end,
            final(self).transcript_id == old(self).transcript_id,
            final(self).exons == old(self).exons,
    {
        self.start = start;
        self.end = end;
    }

    /// Widens the cached bounds to cover every exon.
    pub fn calculate_size(&mut self)
        ensures
            final(self).transcript_id == old(self).transcript_id,
            final(self).exons == old(self).exons,
            final(self).start <= old(self).start,
            final(self).end >= old(self).end,
            final(self).start == old(self).start || exists|i: int|
                0 <= i < old(self).exons@.len() && old(self).exons@[i].start == final(self).start,
            final(self).end == old(self).end || exists|i: int|
                0 <= i < old(self).exons@.len() && old(self).exons@[i].end == final(self).end,
            forall|i: int|
                0 <= i < old(self).exons@.len() ==> final(self).start <= #[trigger] old(
                    self,
                ).exons@[i].start,
            forall|i: int|
                0 <= i < old(self).exons@.len() ==> final(self).end >= #[trigger] old(
                    self,
                ).exons@[i].end,
    {
        let n = self.exons.len();
        let mut k: usize = 0;
        while k < n
            invariant
                0 <= k <= n,
                n == self.exons@.len(),
                self.transcript_id == old(self).transcript_id,
                self.exons == old(self).exons,
                self.start <= old(self).start,
                self.end >= old(self).end,
                self.start == old(self).start || exists|i: int|
                    0 <= i < k && old(self).exons@[i].start == self.start,
                self.end == old(self).end || exists|i: int|
                    0 <= i < k && old(self).exons@[i].end == self.end,
                forall|i: int| 0 <= i < k ==> self.start <= #[trigger] old(self).exons@[i].start,
                forall|i: int| 0 <= i < k ==> self.end >= #[trigger] old(self).exons@[i].end,
            decreases n - k,
        {
            if self.exons[k].start < self.start {
                let v = self.exons[k].start;
                self.start = v;
            }
            if self.exons[k].end > self.end {
                let v = self.exons[k].end;
                self.end = v;
            }
            k += 1;
        }
    }

    /// Sorts the exons by genomic start and assigns the strand-dependent
    /// transcriptional index labels: `1..N` left to right on the positive
    /// strand, `N..1` on the negative strand.
    pub fn renumber_exons(&mut self, strand: Strand)
        ensures
            final(self).transcript_id == old(self).transcript_id,
            final(self).start == old(self).start,
            final(self).end == old(self).end,
            final(self).exons@.len() == old(self).exons@.len(),
            spec_exons_renumbered(final(self).exons@, strand),
            final(self).exons@.map_values(|e: Exon| (e.start, e.end)).to_multiset() == old(
                self,
            ).exons@.map_values(|e: Exon| (e.start, e.end)).to_multiset(),
    {
        broadcast use vstd::seq_lib::to_multiset_insert;
        broadcast use vstd::seq_lib::to_multiset_build;

        let n = self.exons.len();
        // Collect the exon spans, then sort them by start with stable
        // insertion into an ordered list.
        let mut spans: Vec<(i64, i64)> = Vec::new();
        let mut k: usize = 0;
        while k < n
            invariant
                0 <= k <= n,
                n == self.exons@.len(),
                spans@ == self.exons@.take(k as int).map_values(|e: Exon| (e.start, e.end)),
            decreases n - k,
        {
            let e = &self.exons[k];
            spans.push((e.start, e.end));
            proof {
                assert(self.exons@.take(k + 1).map_values(|e: Exon| (e.start, e.end)) =~= self
                    .exons@.take(k as int).map_values(|e: Exon| (e.start, e.end)).push(
                    (self.exons@[k as int].start, self.exons@[k as int].end),
                ));
            }
            k += 1;
        }
        proof {
            assert(self.exons@.take(n as int) =~= self.exons@);
        }

        let mut sorted: Vec<(i64, i64)> = Vec::new();
        let mut k: usize = 0;
        proof {
            broadcast use vstd::seq_lib::group_to_multiset_ensures;

            assert(spans@.take(0) =~= Seq::<(i64, i64)>::empty());
            assert(sorted@.to_multiset() =~= spans@.take(0).to_multiset());
        }
        while k < n
            invariant
                0 <= k <= n,
                n == spans@.len(),
                sorted@.len() == k,
                sorted@.to_multiset() == spans@.take(k as int).to_multiset(),
                forall|i: int, j: int|
                    0 <= i <= j < sorted@.len() ==> (#[trigger] sorted@[i]).0
                        <= (#[trigger] sorted@[j]).0,
            decreases n - k,
        {
            let x = spans[k];
            // Find the first position whose start exceeds the new span's.
            let mut p: usize = 0;
            while p < sorted.len() && sorted[p].0 <= x.0
                invariant
                    0 <= p <= sorted@.len(),
                    forall|i: int| 0 <= i < p ==> (#[trigger] sorted@[i]).0 <= x.0,
                decreases sorted@.len() - p,
            {
                p += 1;
            }
            proof {
                assert(forall|i: int|
                    p <= i < sorted@.len() ==> x.0 < (#[trigger] sorted@[i]).0) by {
                    assert forall|i: int|
                        p <= i < sorted@.len() implies x.0 < (#[trigger] sorted@[i]).0 by {
                        assert(sorted@[p as int].0 <= sorted@[i].0);
                    }
                }
                assert(spans@.take(k + 1) =~= spans@.take(k as int).push(spans@[k as int]));
            }
            let ghost sorted_before = sorted@;
            sorted.insert(p, x);
            proof {
                vstd::seq_lib::to_multiset_insert(sorted_before, p as int, x);
                vstd::seq_lib::to_multiset_build(spans@.take(k as int), spans@[k as int]);
            }
            k += 1;
        }
        proof {
            assert(spans@.take(n as int) =~= spans@);
        }

        // Rebuild the exon list with the index labels.
        let mut rebuilt: Vec<Exon> = Vec::new();
        let mut k: usize = 0;
        while k < n
            invariant
                0 <= k <= n,
                n == sorted@.len(),
                rebuilt@.len() == k,
                forall|i: int|
                    0 <= i < k ==> ((#[trigger] rebuilt@[i]).start, rebuilt@[i].end) == sorted@[i],
                forall|i: int|
                    0 <= i < k ==> ((#[trigger] rebuilt@[i].exon_number) matches Some(s) && s@
                        == spec_dec_nat(spec_trans_index(strand, i, n as int) as nat)),
            decreases n - k,
        {
            let (s, e) = sorted[k];
            let index: usize = match strand {
                Strand::Positive => k + 1,
                Strand::Negative => n - k,
            };
            let label = dec_u64(index as u64);
            rebuilt.push(Exon { start: s, end: e, exon_number: Some(label) });
            k += 1;
        }
        self.exons = rebuilt;
        proof {
            assert(self.exons@.map_values(|e: Exon| (e.start, e.end)) =~= sorted@);
        }
    }
}

/// A gene: an identifier, a strand, its transcripts, and a cached bounding
/// interval.
#[derive(Debug, Clone)]
pub struct Gene {
    pub gene_id: String,
    pub strand: Strand,
    pub transcripts: Vec<Transcript>,
    /// Lower bound; starts at the `i64::MAX` sentinel until computed.
    pub start: i64,
    /// Upper bound; starts at the `0` sentinel until computed.
    pub end: i64,
}

impl Gene {
    pub fn new(gene_id: String, strand: Strand) -> (r: Gene)
        ensures
            r.gene_id == gene_id,
            r.strand == strand,
            r.transcripts@.len() == 0,
            r.start == i64::MAX,
            r.end == 0,
    {
        Gene { gene_id, strand, transcripts: Vec::new(), start: i64::MAX, end: 0 }
    }

    pub fn add_transcript(&mut self, transcript: Transcript)
        ensures
            final(self).transcripts@ == old(self).transcripts@.push(transcript),
            final(self).gene_id == old(self).gene_id,
            final(self).strand == old(self).strand,
            final(self).start == old(self).start,
            final(self).end == old(self).end,
    {
        self.transcripts.push(transcript);
    }

    pub fn set_length(&mut self, start: i64, end: i64)
        ensures
            final(self).start == start,
            final(self).end == end,
            final(self).gene_id == old(self).gene_id,
            final(self).strand == old(self).strand,
            final(self).transcripts == old(self).transcripts,
    {
        self.start = start;
        self.end = end;
    }

    /// Widens the cached bounds to cover every transcript.
    pub fn calculate_size(&mut self)
        ensures
            final(self).gene_id == old(self).gene_id,
            final(self).strand == old(self).strand,
            final(self).transcripts == old(self).transcripts,
            final(self).start <= old(self).start,
            final(self).end >= old(self).end,
            final(self).start == old(self).start || exists|i: int|
                0 <= i < old(self).transcripts@.len()
                    && old(self).transcripts@[i].start == final(self).start,
            final(self).end == old(self).end || exists|i: int|
                0 <= i < old(self).transcripts@.len()
                    && old(self).transcripts@[i].end == final(self).end,
            forall|i: int|
                0 <= i < old(self).transcripts@.len() ==> final(self).start <= #[trigger] old(
                    self,
                ).transcripts@[i].start,
            forall|i: int|
                0 <= i < old(self).transcripts@.len() ==> final(self).end >= #[trigger] old(
                    self,
                ).transcripts@[i].end,
    {
        let n = self.transcripts.len();
        let mut k: usize = 0;
        while k < n
            invariant
                0 <= k <= n,
                n == self.transcripts@.len(),
                self.gene_id == old(self).gene_id,
                self.strand == old(self).strand,
                self.transcripts == old(self).transcripts,
                self.start <= old(self).start,
                self.end >= old(self).end,
                self.start == old(self).start || exists|i: int|
                    0 <= i < k && old(self).transcripts@[i].start == self.start,
                self.end == old(self).end || exists|i: int|
                    0 <= i < k && old(self).transcripts@[i].end == self.end,
                forall|i: int|
                    0 <= i < k ==> self.start <= #[trigger] old(self).transcripts@[i].start,
                forall|i: int| 0 <= i < k ==> self.end >= #[trigger] old(self).transcripts@[i].end,
            decreases n - k,
        {
            if self.transcripts[k].start < self.start {
                let v = self.transcripts[k].start;
                self.start = v;
            }
            if self.transcripts[k].end > self.end {
                let v = self.transcripts[k].end;
                self.end = v;
            }
            k += 1;
        }
    }
}

/// One raw (region, transcript, zone) observation, before any resolution.
#[derive(Debug)]
pub struct Candidate {
    /// Bounds of the matched span.
    pub start: i64,
    pub end: i64,
    pub strand: Strand,
    /// Transcriptional exon index label; a comma-joined set after a merge.
    pub exon_number: String,
    pub area: Area,
    /// Transcript identifier; a comma-joined set after a merge.
    pub transcript: String,
    pub gene: String,
    /// Signed distance to the anchor feature; zero for direct overlaps.
    pub distance: i64,
    /// Share of the region covered by this zone overlap.
    pub pctg_region: Pct,
    /// Share of the zone's own width covered, or the sentinel.
    pub pctg_area: Pct,
    /// Signed distance from the region midpoint to the transcript start.
    pub tss_distance: i64,
}

impl Candidate {
    pub fn new(
        start: i64,
        end: i64,
        strand: Strand,
        exon_number: String,
        area: Area,
        transcript: String,
        gene: String,
        distance: i64,
        pctg_region: Pct,
        pctg_area: Pct,
        tss_distance: i64,
    ) -> (r: Candidate)
        ensures
            r.start == start,
            r.end == end,
            r.strand == strand,
            r.exon_number == exon_number,
            r.area == area,
            r.transcript == transcript,
            r.gene == gene,
            r.distance == distance,
            r.pctg_region == pctg_region,
            r.pctg_area == pctg_area,
            r.tss_distance == tss_distance,
    {
        Candidate {
            start,
            end,
            strand,
            exon_number,
            area,
            transcript,
            gene,
            distance,
            pctg_region,
            pctg_area,
            tss_distance,
        }
    }
}

impl Clone for Candidate {
    fn clone(&self) -> (r: Candidate)
        ensures
            r == *self,
    {
        Candidate {
            start: self.start,
            end: self.end,
            strand: self.strand,
            exon_number: self.exon_number.clone(),
            area: self.area,
            transcript: self.transcript.clone(),
            gene: self.gene.clone(),
            distance: self.distance,
            pctg_region: self.pctg_region,
            pctg_area: self.pctg_area,
            tss_distance: self.tss_distance,
        }
    }
}

/// A genomic region to annotate, with inclusive 1-based coordinates and
/// pass-through metadata columns.
#[derive(Debug)]
pub struct Region {
    pub chrom: String,
    pub start: i64,
    pub end: i64,
    pub metadata: Vec<String>,
}

/// Truncating halving, as `/ 2` behaves on machine integers.
pub open spec fn spec_div2_trunc(x: int) -> int {
    if x >= 0 {
        x / 2
    } else {
        -((-x) / 2)
    }
}

/// Two regions that agree on every observable field.
pub open spec fn spec_region_like(a: Region, b: Region) -> bool {
    a.chrom == b.chrom && a.start == b.start && a.end == b.end && a.metadata@ == b.metadata@
}

/// The region identifier `chromosome_start_end`.
pub open spec fn spec_region_id(chrom: Seq<char>, start: int, end: int) -> Seq<char> {
    chrom + seq!['_'] + spec_dec_int(start) + seq!['_'] + spec_dec_int(end)
}

impl Region {
    pub fn new(chrom: String, start: i64, end: i64, metadata: Vec<String>) -> (r: Region)
        ensures
            r.chrom == chrom,
            r.start == start,
            r.end == end,
            r.metadata == metadata,
    {
        Region { chrom, start, end, metadata }
    }

    /// The number of bases the region covers (both ends inclusive).
    pub fn length(&self) -> (r: i64)
        requires
            coord_ok(self.start as int),
            coord_ok(self.end as int),
        ensures
            r == self.end - self.start + 1,
    {
        self.end - self.start + 1
    }

    /// The midpoint of the region, with the division truncated toward zero.
    pub fn midpoint(&self) -> (r: i64)
        requires
            coord_ok(self.start as int),
            coord_ok(self.end as int),
        ensures
            r == spec_div2_trunc(self.start + self.end),
    {
        let s: i64 = self.start + self.end;
        if s >= 0 {
            ((s as u64) / 2) as i64
        } else {
            let m: u64 = (-s) as u64;
            -((m / 2) as i64)
        }
    }

    /// The identifier `chromosome_start_end`.
    pub fn id(&self) -> (r: String)
        ensures
            r@ == spec_region_id(self.chrom@, self.start as int, self.end as int),
    {
        let mut s = self.chrom.clone();
        s.append("_");
        s.append(dec_i64(self.start).as_str());
        s.append("_");
        s.append(dec_i64(self.end).as_str());
        proof {
            reveal_strlit("_");
            assert(s@ =~= spec_region_id(self.chrom@, self.start as int, self.end as int));
        }
        s
    }
}

fn clone_strings(v: &Vec<String>) -> (r: Vec<String>)
    ensures
        r@ == v@,
{
    let mut r: Vec<String> = Vec::new();
    let mut k: usize = 0;
    while k < v.len()
        invariant
            0 <= k <= v@.len(),
            r@ == v@.take(k as int),
        decreases v@.len() - k,
    {
        r.push(v[k].clone());
        proof {
            assert(v@.take(k + 1) =~= v@.take(k as int).push(v@[k as int]));
        }
        k += 1;
    }
    proof {
        assert(v@.take(v@.len() as int) =~= v@);
    }
    r
}

impl Clone for Region {
    fn clone(&self) -> (r: Region)
        ensures
            spec_region_like(r, *self),
    {
        Region {
            chrom: self.chrom.clone(),
            start: self.start,
            end: self.end,
            metadata: clone_strings(&self.metadata),
        }
    }
}

/// The granularity of the final report.
#[derive(Debug, Clone, Copy, PartialEq, Eq, Structural)]
pub enum ReportLevel {
    Exon,
    Transcript,
    Gene,
}

pub open spec fn spec_level_of(s: Seq<char>) -> Option<ReportLevel> {
    if spec_lower(s) == "exon"@ {
        Some(ReportLevel::Exon)
    } else if spec_lower(s) == "transcript"@ {
        Some(ReportLevel::Transcript)
    } else if spec_lower(s) == "gene"@ {
        Some(ReportLevel::Gene)
    } else {
        None
    }
}

impl ReportLevel {
    /// Parses `exon`, `transcript` or `gene`, ignoring ASCII case.
    pub fn from_str(s: &str) -> (r: Option<ReportLevel>)
        ensures
            r == spec_level_of(s@),
    {
        if eq_lower_ascii(s, "exon") {
            Some(ReportLevel::Exon)
        } else if eq_lower_ascii(s, "transcript") {
            Some(ReportLevel::Transcript)
        } else if eq_lower_ascii(s, "gene") {
            Some(ReportLevel::Gene)
        } else {
            None
        }
    }
}

impl core::str::FromStr for ReportLevel {
    type Err = ParseTagError;

    fn from_str(s: &str) -> Result<ReportLevel, ParseTagError> {
        match ReportLevel::from_str(s) {
            Some(v) => Ok(v),
            None => Err(ParseTagError),
        }
    }
}

} // verus!
