//! Run configuration: zone priority rules, thresholds, zone widths, the
//! search distance and the report level.
//!
//! The caller validates a configuration before handing it to the matcher;
//! the matcher itself only relies on [`Config::wf`].

use vstd::prelude::*;
use crate::pct::Pct;
use crate::text::{lemma_join_push, spec_join};
use crate::types::{spec_area_of, Area, ReportLevel, COORD_LIMIT};
use vstd::string::{StrSliceExecFns, StringExecFns};

verus! {

/// The configuration of one matching run.
#[derive(Debug)]
pub struct Config {
    /// Zone priority order, highest priority first.
    pub rules: Vec<Area>,
    /// Threshold on the share of the zone's own width covered.
    pub perc_area: Pct,
    /// Threshold on the share of the region covered.
    pub perc_region: Pct,
    /// TSS zone width in bases.
    pub tss: i64,
    /// TTS zone width in bases.
    pub tts: i64,
    /// Promoter zone width in bases.
    pub promoter: i64,
    /// Maximum reporting distance in bases.
    pub distance: i64,
    /// Report granularity.
    pub level: ReportLevel,
    /// Annotation attribute naming the gene.
    pub gene_id_tag: String,
    /// Annotation attribute naming the transcript.
    pub transcript_id_tag: String,
}

/// The default priority order of the eight zones.
pub open spec fn spec_default_rules() -> Seq<Area> {
    seq![
        Area::Tss,
        Area::FirstExon,
        Area::Promoter,
        Area::Tts,
        Area::Intron,
        Area::GeneBody,
        Area::Upstream,
        Area::Downstream,
    ]
}

/// The default configuration: the standard priority order, a 90% area
/// threshold, a 50% region threshold, a 200 base TSS zone, no TTS zone, a
/// 1300 base promoter zone, a 10 kb reporting distance, and exon-level
/// reports.
pub open spec fn spec_is_default(c: Config) -> bool {
    &&& c.rules@ == spec_default_rules()
    &&& c.perc_area == (Pct::Ratio { num: 90i64, den: 100i64 })
    &&& c.perc_region == (Pct::Ratio { num: 50i64, den: 100i64 })
    &&& c.tss == 200i64
    &&& c.tts == 0i64
    &&& c.promoter == 1300i64
    &&& c.distance == 10000i64
    &&& c.level == ReportLevel::Exon
    &&& c.gene_id_tag@ == "gene_id"@
    &&& c.transcript_id_tag@ == "transcript_id"@
}

/// Everything but the rules agrees between the two configurations.
pub open spec fn spec_same_but_rules(a: Config, b: Config) -> bool {
    &&& a.perc_area == b.perc_area
    &&& a.perc_region == b.perc_region
    &&& a.tss == b.tss
    &&& a.tts == b.tts
    &&& a.promoter == b.promoter
    &&& a.distance == b.distance
    &&& a.level == b.level
    &&& a.gene_id_tag == b.gene_id_tag
    &&& a.transcript_id_tag == b.transcript_id_tag
}

/// The part contains no comma.
pub open spec fn spec_no_comma(p: Seq<char>) -> bool {
    forall|j: int| 0 <= j < p.len() ==> p[j] != ','
}

/// A decomposition of `s` into comma-free parts joined by commas; such a
/// decomposition is unique.
pub open spec fn spec_comma_split(parts: Seq<Seq<char>>, s: Seq<char>) -> bool {
    &&& parts.len() >= 1
    &&& forall|k: int| 0 <= k < parts.len() ==> spec_no_comma(#[trigger] parts[k])
    &&& spec_join(parts, ',') == s
}

/// A valid rule list: exactly eight parts, each one a zone tag, no zone
/// twice.
pub open spec fn spec_parts_valid(parts: Seq<Seq<char>>) -> bool {
    &&& parts.len() == 8
    &&& forall|k: int| 0 <= k < parts.len() ==> (#[trigger] spec_area_of(parts[k])) is Some
    &&& forall|k: int, j: int|
        0 <= k < j < parts.len() ==> spec_area_of(parts[k]) != spec_area_of(parts[j])
}

/// The zones named by the parts, in order.
pub open spec fn spec_parts_areas(parts: Seq<Seq<char>>) -> Seq<Area> {
    parts.map_values(|p: Seq<char>| spec_area_of(p)->0)
}

/// The bounds the matcher needs of a configuration: non-negative widths
/// and distance within the coordinate limit, and well-formed thresholds.
impl Config {
    pub open spec fn wf(self) -> bool {
        &&& 0 <= self.tss <= COORD_LIMIT
        &&& 0 <= self.tts <= COORD_LIMIT
        &&& 0 <= self.promoter <= COORD_LIMIT
        &&& 0 <= self.distance <= COORD_LIMIT
        &&& self.perc_area.well_formed()
        &&& self.perc_region.well_formed()
    }

    pub fn new() -> (r: Config)
        ensures
            spec_is_default(r),
            r.wf(),
    {
        let mut rules: Vec<Area> = Vec::new();
        rules.push(Area::Tss);
        rules.push(Area::FirstExon);
        rules.push(Area::Promoter);
        rules.push(Area::Tts);
        rules.push(Area::Intron);
        rules.push(Area::GeneBody);
        rules.push(Area::Upstream);
        rules.push(Area::Downstream);
        proof {
            assert(rules@ =~= spec_default_rules());
        }
        Config {
            rules,
            perc_area: Pct::Ratio { num: 90, den: 100 },
            perc_region: Pct::Ratio { num: 50, den: 100 },
            tss: 200,
            tts: 0,
            promoter: 1300,
            distance: 10000,
            level: ReportLevel::Exon,
            gene_id_tag: String::from_str("gene_id"),
            transcript_id_tag: String::from_str("transcript_id"),
        }
    }

    /// The furthest a gene can stand from a region and still matter: the
    /// larger of the reporting distance and the widest configured zone.
    pub fn max_lookback_distance(&self) -> (r: i64)
        ensures
            r == vstd::math::max(
                self.distance as int,
                vstd::math::max(self.tss as int, vstd::math::max(self.tts as int, self.promoter as int)),
            ),
    {
        let mut widest = self.tss;
        if self.tts > widest {
            widest = self.tts;
        }
        if self.promoter > widest {
            widest = self.promoter;
        }
        if self.distance > widest {
            self.distance
        } else {
            widest
        }
    }

    /// Sets the reporting distance from a kilobase count; a negative count
    /// leaves the distance unchanged.
    pub fn set_distance_kb(&mut self, kb: i64)
        requires
            kb <= 0x20_0000_0000_0000,
        ensures
            kb >= 0 ==> final(self).distance == kb * 1000,
            kb < 0 ==> final(self).distance == old(self).distance,
            final(self).rules == old(self).rules,
            spec_same_but_rules(
                *final(self),
                Config { distance: final(self).distance, ..*old(self) },
            ),
    {
        if kb >= 0 {
            self.distance = kb * 1000;
        }
    }

    /// Replaces the priority rules with the comma-separated zone tags in
    /// `s`, if they name each of the eight zones exactly once; otherwise
    /// reports failure and leaves the configuration unchanged.
    pub fn parse_rules(&mut self, s: &str) -> (ok: bool)
        ensures
            exists|parts: Seq<Seq<char>>|
                {
                    &&& #[trigger] spec_comma_split(parts, s@)
                    &&& ok == spec_parts_valid(parts)
                    &&& ok ==> final(self).rules@ == spec_parts_areas(parts)
                },
            !ok ==> final(self).rules == old(self).rules,
            spec_same_but_rules(*final(self), *old(self)),
    {
        let parts = split_commas(s);
        let n = parts.len();
        if n != 8 {
            proof {
                use_split_witness(parts@.map_values(|p: String| p@), s@, false);
            }
            return false;
        }
        let mut areas: Vec<Area> = Vec::new();
        let mut k: usize = 0;
        while k < n
            invariant
                0 <= k <= n,
                n == parts@.len(),
                n == 8,
                areas@.len() == k,
                spec_comma_split(parts@.map_values(|p: String| p@), s@),
                forall|i: int| 0 <= i < k ==> (#[trigger] spec_area_of(parts@[i]@)) is Some,
                forall|i: int| 0 <= i < k ==> areas@[i] == spec_area_of(parts@[i]@)->0,
            decreases n - k,
        {
            match Area::from_str(parts[k].as_str()) {
                Some(a) => {
                    areas.push(a);
                },
                None => {
                    proof {
                        let views = parts@.map_values(|p: String| p@);
                        assert(views[k as int] == parts@[k as int]@);
                        assert(!(spec_area_of(views[k as int]) is Some));
                        use_split_witness(views, s@, false);
                    }
                    return false;
                },
            }
            k += 1;
        }
        // No zone may appear twice.
        let mut k: usize = 0;
        while k < n
            invariant
                0 <= k <= n,
                n == areas@.len(),
                n == parts@.len(),
                n == 8,
                spec_comma_split(parts@.map_values(|p: String| p@), s@),
                forall|i: int| 0 <= i < n ==> (#[trigger] spec_area_of(parts@[i]@)) is Some,
                forall|i: int| 0 <= i < n ==> areas@[i] == spec_area_of(parts@[i]@)->0,
                forall|i: int, j: int| 0 <= i < k && i < j < n ==> areas@[i] != areas@[j],
            decreases n - k,
        {
            let mut j: usize = k + 1;
            while j < n
                invariant
                    0 <= k < j <= n,
                    n == areas@.len(),
                    n == parts@.len(),
                    n == 8,
                    spec_comma_split(parts@.map_values(|p: String| p@), s@),
                    forall|i: int| 0 <= i < n ==> (#[trigger] spec_area_of(parts@[i]@)) is Some,
                    forall|i: int| 0 <= i < n ==> areas@[i] == spec_area_of(parts@[i]@)->0,
                    forall|i: int| k < i < j ==> areas@[k as int] != areas@[i],
                decreases n - j,
            {
                if areas[k] == areas[j] {
                    proof {
                        let views = parts@.map_values(|p: String| p@);
                        assert(spec_area_of(views[k as int]) == spec_area_of(views[j as int]));
                        use_split_witness(views, s@, false);
                    }
                    return false;
                }
                j += 1;
            }
            k += 1;
        }
        proof {
            let views = parts@.map_values(|p: String| p@);
            assert forall|i: int| 0 <= i < views.len() implies (#[trigger] spec_area_of(
                views[i],
            )) is Some by {
                assert(views[i] == parts@[i]@);
            }
            assert forall|i: int, j: int| 0 <= i < j < views.len() implies spec_area_of(views[i])
                != spec_area_of(views[j]) by {
                assert(views[i] == parts@[i]@);
                assert(views[j] == parts@[j]@);
                assert(areas@[i] != areas@[j]);
            }
            assert(areas@ =~= spec_parts_areas(views));
            use_split_witness(views, s@, true);
        }
        self.rules = areas;
        true
    }
}

/// Shorthand to supply the split witness for `parse_rules`' postcondition.
proof fn use_split_witness(parts: Seq<Seq<char>>, s: Seq<char>, valid: bool)
    requires
        spec_comma_split(parts, s),
        valid == spec_parts_valid(parts),
    ensures
        spec_comma_split(parts, s),
        valid == spec_parts_valid(parts),
{
}

/// Splits `s` at every comma; the concatenation of the parts, joined with
/// commas, is `s` itself, and no part contains a comma.
fn split_commas(s: &str) -> (parts: Vec<String>)
    ensures
        spec_comma_split(parts@.map_values(|p: String| p@), s@),
{
    let n = s.unicode_len();
    let mut parts: Vec<String> = Vec::new();
    let mut seg_start: usize = 0;
    let mut i: usize = 0;
    while i < n
        invariant
            0 <= seg_start <= i <= n,
            n == s@.len(),
            forall|k: int| 0 <= k < parts@.len() ==> spec_no_comma((#[trigger] parts@[k])@),
            forall|j: int| seg_start <= j < i ==> s@[j] != ',',
            parts@.len() == 0 ==> seg_start == 0,
            parts@.len() >= 1 ==> spec_join(parts@.map_values(|p: String| p@), ',') + seq![',']
                == s@.take(seg_start as int),
        decreases n - i,
    {
        if s.get_char(i) == ',' {
            let seg = s.substring_char(seg_start, i).to_owned();
            let ghost old_views = parts@.map_values(|p: String| p@);
            parts.push(seg);
            proof {
                let views = parts@.map_values(|p: String| p@);
                assert(views =~= old_views.push(s@.subrange(seg_start as int, i as int)));
                lemma_join_push(old_views, s@.subrange(seg_start as int, i as int), ',');
                assert(spec_join(views, ',') + seq![','] =~= s@.take(i + 1));
            }
            seg_start = i + 1;
        }
        i += 1;
    }
    let seg = s.substring_char(seg_start, n).to_owned();
    let ghost old_views = parts@.map_values(|p: String| p@);
    parts.push(seg);
    proof {
        let views = parts@.map_values(|p: String| p@);
        assert(views =~= old_views.push(s@.subrange(seg_start as int, n as int)));
        lemma_join_push(old_views, s@.subrange(seg_start as int, n as int), ',');
        assert(s@.take(n as int) =~= s@);
        if old_views.len() >= 1 {
            assert(spec_join(views, ',') =~= s@);
        } else {
            assert(spec_join(views, ',') =~= s@);
        }
    }
    parts
}

impl Default for Config {
    /// The same configuration as `Config::new`.
    fn default() -> (r: Config)
        ensures
            spec_is_default(r),
            r.wf(),
    {
        Config::new()
    }
}

} // verus!
