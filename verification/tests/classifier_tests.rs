//! Tests of the start-side and end-side zone classifiers, including the
//! coordinate-mirroring arithmetic.

use rgmatch::matcher::tss::{check_tss, TssExonInfo};
use rgmatch::matcher::tts::{check_tts, TtsExonInfo};
use rgmatch::matcher::ZoneHit;
use rgmatch::pct::Pct;
use rgmatch::types::{Area, Strand};

fn tags(res: &[ZoneHit]) -> Vec<Area> {
    res.iter().map(|h| h.area).collect()
}

#[test]
fn test_pos_strand_boundaries() {
    // Exon: [2000, 3000]. TSS @ 2000.
    // TSS zone: [1800, 2000].
    // Promoter zone: [500, 1800) (1300bp long).

    // Case 1: Exactly at TSS boundary (200bp upstream) -> [1800, 1810]
    // 2000 - 1800 = 200. <= 200 TSS.
    let exon = TssExonInfo {
        start: 2000,
        end: 3000,
        strand: Strand::Positive,
        distance: 0,
    };
    let res = check_tss(1800, 1810, &exon, 200, 1300);
    assert!(
        res.iter().any(|h| h.area == Area::Tss),
        "1800 should be TSS: {:?}",
        res
    );

    // Case 2: Just outside TSS boundary -> [1799, 1810]
    // 2000 - 1799 = 201. > 200. Should be PROMOTER.
    let res = check_tss(1799, 1810, &exon, 200, 1300);
    let t = tags(&res);
    assert!(t.contains(&Area::Promoter));
    assert!(t.contains(&Area::Tss));

    // Case 3: Far upstream (UPSTREAM tag)
    let exon_far = TssExonInfo {
        start: 2000,
        end: 3000,
        strand: Strand::Positive,
        distance: 1800,
    };
    let res = check_tss(100, 200, &exon_far, 200, 1300);
    let t = tags(&res);
    assert!(t.contains(&Area::Upstream));
    assert!(!t.contains(&Area::Tss));
    assert!(!t.contains(&Area::Promoter));
}

#[test]
fn test_neg_strand_mirror() {
    // Exon: [2000, 3000]. Strand "-".
    // TSS @ 3000. Upstream > 3000.
    let exon = TssExonInfo {
        start: 2000,
        end: 3000,
        strand: Strand::Negative,
        distance: 0,
    };

    // Case 1: Region [3200, 3210] should be PROMOTER
    let res = check_tss(3200, 3210, &exon, 200, 1300);
    assert!(tags(&res).contains(&Area::Promoter));

    // Case 2: TSS Zone Inside [3100, 3150]
    let res = check_tss(3100, 3150, &exon, 200, 1300);
    assert!(res.iter().any(|h| h.area == Area::Tss));
}

#[test]
fn test_integer_division_check_tss() {
    let exon = TssExonInfo {
        start: 2000,
        end: 3000,
        strand: Strand::Positive,
        distance: 0,
    };
    let res = check_tss(1801, 1810, &exon, 200, 1300);
    assert!(!res.is_empty());
}

#[test]
fn test_zero_length_region_check_tss() {
    let exon = TssExonInfo {
        start: 2000,
        end: 3000,
        strand: Strand::Positive,
        distance: 0,
    };
    let res = check_tss(1900, 1899, &exon, 200, 1300);
    assert!(res.is_empty());
}

#[test]
fn test_region_entirely_in_promoter() {
    let exon = TssExonInfo {
        start: 2000,
        end: 3000,
        strand: Strand::Positive,
        distance: 500, // Distance > tss but < tss + promoter
    };
    // Region in promoter zone (between TSS and UPSTREAM)
    let res = check_tss(1400, 1500, &exon, 200, 1300);
    let t = tags(&res);
    assert!(t.contains(&Area::Promoter));
    assert!(!t.contains(&Area::Tss));
}

#[test]
fn test_region_spanning_promoter_upstream() {
    let exon = TssExonInfo {
        start: 2000,
        end: 3000,
        strand: Strand::Positive,
        distance: 500,
    };
    // Region spanning promoter and upstream zones
    let res = check_tss(100, 600, &exon, 200, 1300);
    let t = tags(&res);
    assert!(t.contains(&Area::Promoter));
    assert!(t.contains(&Area::Upstream));
}

#[test]
fn test_region_entirely_upstream() {
    let exon = TssExonInfo {
        start: 2000,
        end: 3000,
        strand: Strand::Positive,
        distance: 2000, // Far upstream
    };
    let res = check_tss(100, 200, &exon, 200, 1300);
    let t = tags(&res);
    assert!(t.contains(&Area::Upstream));
    assert!(!t.contains(&Area::Tss));
    assert!(!t.contains(&Area::Promoter));
}

#[test]
fn test_percentage_calculations_tss() {
    let exon = TssExonInfo {
        start: 2000,
        end: 3000,
        strand: Strand::Positive,
        distance: 0,
    };
    // Region [1900, 1999] is 100bp long, entirely in 200bp TSS zone
    let res = check_tss(1900, 1999, &exon, 200, 1300);
    assert_eq!(res.len(), 1);
    assert_eq!(res[0].area, Area::Tss);
    assert!(res[0].pctg_region.eq_value(&Pct::whole(100))); // 100bp / 100bp = 100%
    assert!(res[0].pctg_area.eq_value(&Pct::whole(50))); // 100bp / 200bp = 50%
}

#[test]
fn test_negative_strand_entirely_in_tss() {
    let exon = TssExonInfo {
        start: 2000,
        end: 3000,
        strand: Strand::Negative,
        distance: 0,
    };
    // For negative strand, TSS is at exon end (3000)
    // TSS zone is [3001, 3200]
    let res = check_tss(3050, 3100, &exon, 200, 1300);
    assert!(res.iter().any(|h| h.area == Area::Tss));
}

#[test]
fn test_negative_strand_entirely_upstream() {
    let exon = TssExonInfo {
        start: 2000,
        end: 3000,
        strand: Strand::Negative,
        distance: 2000,
    };
    let res = check_tss(5000, 5100, &exon, 200, 1300);
    assert!(tags(&res).contains(&Area::Upstream));
}

#[test]
fn test_region_spanning_tss_promoter_upstream() {
    let exon = TssExonInfo {
        start: 2000,
        end: 3000,
        strand: Strand::Positive,
        distance: 0,
    };
    // Large region spanning all zones: TSS (200bp), Promoter (1300bp), and into Upstream
    // TSS zone: [1800, 2000]
    // Promoter zone: [500, 1800]
    // Upstream: < 500
    let res = check_tss(100, 1950, &exon, 200, 1300);
    let t = tags(&res);
    assert!(t.contains(&Area::Tss));
    assert!(t.contains(&Area::Promoter));
    assert!(t.contains(&Area::Upstream));
}

#[test]
fn test_large_tss_distance() {
    let exon = TssExonInfo {
        start: 20000,
        end: 30000,
        strand: Strand::Positive,
        distance: 5000,
    };
    let res = check_tss(15000, 15100, &exon, 10000, 1300);
    assert!(res.iter().any(|h| h.area == Area::Tss));
}

#[test]
fn test_zero_tss_distance() {
    let exon = TssExonInfo {
        start: 2000,
        end: 3000,
        strand: Strand::Positive,
        distance: 500,
    };
    // With tss=0, should go directly to promoter logic
    let res = check_tss(1500, 1600, &exon, 0, 1300);
    assert!(tags(&res).contains(&Area::Promoter));
}

#[test]
fn tts_test_pos_strand_tts() {
    // Exon [1000, 2000]. TTS @ 2000.
    // Downstream > 2000.
    let exon = TtsExonInfo {
        start: 1000,
        end: 2000,
        strand: Strand::Positive,
        distance: 0,
    };

    // Case 1: Downstream 100bp [2100, 2150]
    // Logic flip:
    // dhs_start' = 2*2000 - 2150 = 1850
    // dhs_end' = 2*2000 - 2100 = 1900
    // exon_start' = 2000 (the exon end, where the TTS sits)
    // Check: exon_start' - dhs_start' = 2000 - 1850 = 150 <= 200
    // Returns TTS
    let res = check_tts(2100, 2150, &exon, 200);
    assert!(res.iter().any(|h| h.area == Area::Tts));
}

#[test]
fn tts_test_neg_strand_tts() {
    // Exon [1000, 2000]. Strand "-".
    // TTS @ 1000 (Start). Downstream < 1000.
    let exon = TtsExonInfo {
        start: 1000,
        end: 2000,
        strand: Strand::Negative,
        distance: 0,
    };

    // Case 1: Downstream 100bp [850, 900]
    // No flip for "-".
    // exon_start = 1000
    // dhs_start = 850
    // exon_start - dhs_start = 1000 - 850 = 150 <= 200
    // Returns TTS
    let res = check_tts(850, 900, &exon, 200);
    assert!(res.iter().any(|h| h.area == Area::Tts));
}

#[test]
fn test_zero_tts_value() {
    // Test check_tts when tts is set to 0
    let exon = TtsExonInfo {
        start: 1000,
        end: 2000,
        strand: Strand::Positive,
        distance: 100,
    };
    let res = check_tts(2100, 2150, &exon, 0);
    assert!(tags(&res).contains(&Area::Downstream));
}

#[test]
fn tts_test_zero_length_region_check_tts() {
    let exon = TtsExonInfo {
        start: 1000,
        end: 2000,
        strand: Strand::Positive,
        distance: 0,
    };
    let res = check_tts(2100, 2099, &exon, 200);
    assert!(res.is_empty());
}

#[test]
fn test_large_tts_value() {
    let exon = TtsExonInfo {
        start: 1000,
        end: 2000,
        strand: Strand::Positive,
        distance: 3000,
    };
    let res = check_tts(5000, 5100, &exon, 5000);
    assert!(res.iter().any(|h| h.area == Area::Tts));
}

#[test]
fn tts_test_region_spanning_tts_downstream() {
    let exon = TtsExonInfo {
        start: 1000,
        end: 2000,
        strand: Strand::Positive,
        distance: 0,
    };
    // Region from 2100 to 2300 (spans TTS at 200bp)
    let res = check_tts(2100, 2300, &exon, 200);
    let t = tags(&res);
    assert!(t.contains(&Area::Tts));
    assert!(t.contains(&Area::Downstream));
}

#[test]
fn test_neg_strand_percentage_calculations() {
    let exon = TtsExonInfo {
        start: 1000,
        end: 2000,
        strand: Strand::Negative,
        distance: 0,
    };
    let res = check_tts(850, 950, &exon, 200);
    for h in &res {
        if h.area == Area::Tts {
            assert!(Pct::whole(0).le(&h.pctg_region) && h.pctg_region.le(&Pct::whole(100)));
            assert!(Pct::whole(0).le(&h.pctg_area) && h.pctg_area.le(&Pct::whole(100)));
        }
    }
}

#[test]
fn test_region_entirely_in_tts() {
    let exon = TtsExonInfo {
        start: 1000,
        end: 2000,
        strand: Strand::Positive,
        distance: 0,
    };
    // Region [2050, 2100] is entirely within TTS zone (200bp)
    let res = check_tts(2050, 2100, &exon, 200);
    assert_eq!(res.len(), 1);
    assert_eq!(res[0].area, Area::Tts);
}

#[test]
fn test_region_entirely_downstream() {
    let exon = TtsExonInfo {
        start: 1000,
        end: 2000,
        strand: Strand::Positive,
        distance: 500, // Beyond TTS distance
    };
    // Region far downstream
    let res = check_tts(2500, 2600, &exon, 200);
    let t = tags(&res);
    assert!(t.contains(&Area::Downstream));
    assert!(!t.contains(&Area::Tts));
}

#[test]
fn test_percentage_calculations_tts() {
    let exon = TtsExonInfo {
        start: 1000,
        end: 2000,
        strand: Strand::Positive,
        distance: 0,
    };
    // Region [2001, 2100] is 100bp long, entirely in 200bp TTS zone
    let res = check_tts(2001, 2100, &exon, 200);
    assert_eq!(res.len(), 1);
    assert_eq!(res[0].area, Area::Tts);
    assert!(res[0].pctg_region.eq_value(&Pct::whole(100))); // 100bp / 100bp = 100%
    assert!(res[0].pctg_area.eq_value(&Pct::whole(50))); // 100bp / 200bp = 50%
}

#[test]
fn test_negative_strand_entirely_in_tts() {
    let exon = TtsExonInfo {
        start: 1000,
        end: 2000,
        strand: Strand::Negative,
        distance: 0,
    };
    // For negative strand, TTS is at exon start (1000)
    // TTS zone is [800, 999]
    let res = check_tts(850, 950, &exon, 200);
    assert!(res.iter().any(|h| h.area == Area::Tts));
}

#[test]
fn test_negative_strand_entirely_downstream() {
    let exon = TtsExonInfo {
        start: 1000,
        end: 2000,
        strand: Strand::Negative,
        distance: 500,
    };
    // For negative strand, downstream is < 1000
    let res = check_tts(400, 500, &exon, 200);
    assert!(tags(&res).contains(&Area::Downstream));
}

#[test]
fn test_zero_tts_distance() {
    let exon = TtsExonInfo {
        start: 1000,
        end: 2000,
        strand: Strand::Positive,
        distance: 100,
    };
    // With tts=0, should go directly to downstream logic
    let res = check_tts(2100, 2200, &exon, 0);
    assert!(tags(&res).contains(&Area::Downstream));
}

#[test]
fn test_large_tts_distance() {
    let exon = TtsExonInfo {
        start: 1000,
        end: 2000,
        strand: Strand::Positive,
        distance: 3000,
    };
    // Region far from exon but within large TTS zone
    let res = check_tts(5000, 5100, &exon, 5000);
    assert!(res.iter().any(|h| h.area == Area::Tts));
}

#[test]
fn test_negative_strand_percentage_calculations() {
    let exon = TtsExonInfo {
        start: 1000,
        end: 2000,
        strand: Strand::Negative,
        distance: 0,
    };
    let res = check_tts(850, 950, &exon, 200);
    for h in &res {
        if h.area == Area::Tts {
            assert!(Pct::whole(0).le(&h.pctg_region) && h.pctg_region.le(&Pct::whole(100)));
            assert!(Pct::whole(0).le(&h.pctg_area) && h.pctg_area.le(&Pct::whole(100)));
        }
    }
}

#[test]
fn test_mirrored_tts_exact_percentages() {
    // Exon [1000, 2000], positive strand, TTS width 200bp, region [2100, 2150]:
    // the mirrored anchor sits at 2000, the anchor distance is 100 <= 200,
    // so the whole region is TTS with 100% of the region and
    // (51 / 200) * 100 = 25.5% of the zone.
    let exon = TtsExonInfo {
        start: 1000,
        end: 2000,
        strand: Strand::Positive,
        distance: 100,
    };
    let res = check_tts(2100, 2150, &exon, 200);
    assert_eq!(res.len(), 1);
    assert_eq!(res[0].area, Area::Tts);
    assert!(res[0].pctg_region.eq_value(&Pct::whole(100)));
    assert!(res[0].pctg_area.eq_value(&Pct::Ratio { num: 255, den: 1000 }));
}

#[test]
fn test_mirror_round_trip_matches_positive_problem() {
    // A negative-strand classification equals the positive-strand
    // classification of the problem mirrored about the anchor exon's end.
    let exon_neg = TssExonInfo {
        start: 2000,
        end: 3000,
        strand: Strand::Negative,
        distance: 150,
    };
    let res_neg = check_tss(3100, 3150, &exon_neg, 200, 1300);
    // Mirror about 3000: region [2850, 2900], exon [3000, 4000], positive.
    let exon_pos = TssExonInfo {
        start: 3000,
        end: 4000,
        strand: Strand::Positive,
        distance: 150,
    };
    let res_pos = check_tss(2850, 2900, &exon_pos, 200, 1300);
    assert_eq!(res_neg.len(), res_pos.len());
    for (a, b) in res_neg.iter().zip(res_pos.iter()) {
        assert_eq!(a.area, b.area);
        assert_eq!(a.pctg_region, b.pctg_region);
        assert_eq!(a.pctg_area, b.pctg_area);
    }
}

#[test]
fn unit_tests_test_pos_strand_tts() {
    let exon = TtsExonInfo {
        start: 1000,
        end: 2000,
        strand: Strand::Positive,
        distance: 0,
    };
    let res = check_tts(2100, 2150, &exon, 200);
    assert!(res.iter().any(|h| h.area == Area::Tts));
}

#[test]
fn unit_tests_test_neg_strand_tts() {
    let exon = TtsExonInfo {
        start: 1000,
        end: 2000,
        strand: Strand::Negative,
        distance: 0,
    };
    let res = check_tts(850, 900, &exon, 200);
    assert!(res.iter().any(|h| h.area == Area::Tts));
}

#[test]
fn unit_tests_test_zero_length_region_check_tts() {
    let exon = TtsExonInfo {
        start: 1000,
        end: 2000,
        strand: Strand::Positive,
        distance: 0,
    };
    let res = check_tts(2100, 2099, &exon, 200);
    assert!(res.is_empty());
}

#[test]
fn unit_tests_test_region_spanning_tts_downstream() {
    let exon = TtsExonInfo {
        start: 1000,
        end: 2000,
        strand: Strand::Positive,
        distance: 0,
    };
    let res = check_tts(2100, 2300, &exon, 200);
    let t = tags(&res);
    assert!(t.contains(&Area::Tts));
    assert!(t.contains(&Area::Downstream));
}
