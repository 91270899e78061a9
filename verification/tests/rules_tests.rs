//! Tests of the candidate selector (thresholds, priority, tie break) and
//! the gene-level merger.

use rgmatch::matcher::rules::{apply_rules, select_transcript};
use rgmatch::pct::Pct;
use rgmatch::types::{Area, Candidate, Strand};

fn make_candidate(
    area: Area,
    pctg_region: Pct,
    pctg_area: Pct,
    transcript: &str,
    gene: &str,
    exon_number: &str,
) -> Candidate {
    Candidate::new(
        100,
        200,
        Strand::Positive,
        exon_number.to_string(),
        area,
        transcript.to_string(),
        gene.to_string(),
        0,
        pctg_region,
        pctg_area,
        100,
    )
}

fn default_rules() -> Vec<Area> {
    vec![
        Area::Tss,
        Area::FirstExon,
        Area::Promoter,
        Area::Tts,
        Area::Intron,
        Area::GeneBody,
        Area::Upstream,
        Area::Downstream,
    ]
}

#[test]
fn test_priority_logic() {
    let rules = default_rules();

    let c1 = make_candidate(Area::Intron, Pct::whole(100), Pct::whole(100), "T1", "G1", "1");
    let c2 = make_candidate(Area::Tss, Pct::whole(100), Pct::whole(100), "T1", "G1", "1"); // Should win
    let c3 = make_candidate(Area::GeneBody, Pct::whole(100), Pct::whole(100), "T1", "G1", "1");

    let candidates = vec![c1, c2, c3];
    let groups = vec![vec![0, 1, 2]];

    let result = apply_rules(&candidates, &groups, &Pct::whole(50), &Pct::whole(90), &rules);

    assert_eq!(result.len(), 1);
    assert_eq!(result[0].area, Area::Tss);
}

#[test]
fn test_priority_logic_custom_rules() {
    // Change rules order - Intron now higher priority
    let rules = vec![Area::Intron, Area::Tss];

    let c1 = make_candidate(Area::Intron, Pct::whole(100), Pct::whole(100), "T1", "G1", "1");
    let c2 = make_candidate(Area::Tss, Pct::whole(100), Pct::whole(100), "T1", "G1", "1");

    let candidates = vec![c1, c2];
    let groups = vec![vec![0, 1]];

    let result = apply_rules(&candidates, &groups, &Pct::whole(50), &Pct::whole(90), &rules);

    assert_eq!(result.len(), 1);
    assert_eq!(result[0].area, Area::Intron);
}

#[test]
fn test_pctg_region_threshold() {
    let rules = vec![Area::Tss, Area::Intron];

    let c1 = make_candidate(Area::Intron, Pct::whole(60), Pct::whole(100), "T1", "G1", "1"); // Passes
    let c2 = make_candidate(Area::Tss, Pct::whole(40), Pct::whole(100), "T1", "G1", "1"); // Fails threshold

    let candidates = vec![c1, c2];
    let groups = vec![vec![0, 1]];

    let result = apply_rules(&candidates, &groups, &Pct::whole(50), &Pct::whole(90), &rules);

    assert_eq!(result.len(), 1);
    assert_eq!(result[0].area, Area::Intron);
}

#[test]
fn test_all_below_region_threshold() {
    let rules = vec![Area::Tss, Area::Intron];

    let c1 = make_candidate(Area::Intron, Pct::whole(30), Pct::whole(100), "T1", "G1", "1");
    let c2 = make_candidate(Area::Tss, Pct::whole(40), Pct::whole(100), "T1", "G1", "1");

    let candidates = vec![c1, c2];
    let groups = vec![vec![0, 1]];

    let result = apply_rules(&candidates, &groups, &Pct::whole(90), &Pct::whole(90), &rules);

    // Should still pick one based on rules priority
    assert_eq!(result.len(), 1);
    assert_eq!(result[0].area, Area::Tss);
}

#[test]
fn test_max_pctg_region_tiebreaker() {
    let rules = vec![Area::Tss];

    let c1 = make_candidate(Area::Tss, Pct::whole(80), Pct::whole(100), "T1", "G1", "1");
    let c2 = make_candidate(Area::Tss, Pct::whole(90), Pct::whole(100), "T2", "G1", "1"); // Higher

    let candidates = vec![c1, c2];
    let groups = vec![vec![0, 1]];

    let result = apply_rules(&candidates, &groups, &Pct::whole(50), &Pct::whole(90), &rules);

    assert_eq!(result.len(), 1);
    assert!(result[0].pctg_region.eq_value(&Pct::whole(90)));
}

#[test]
fn test_same_area_same_pctg_region_tie() {
    let rules = vec![Area::Tss];

    let c1 = make_candidate(Area::Tss, Pct::whole(80), Pct::whole(100), "T1", "G1", "1");
    let c2 = make_candidate(Area::Tss, Pct::whole(80), Pct::whole(100), "T2", "G1", "1");

    let candidates = vec![c1, c2];
    let groups = vec![vec![0, 1]];

    let result = apply_rules(&candidates, &groups, &Pct::whole(50), &Pct::whole(90), &rules);

    // Both should be reported (tie)
    assert_eq!(result.len(), 2);
}

#[test]
fn test_pctg_area_threshold() {
    let rules = vec![Area::Tss, Area::Intron];

    let c1 = make_candidate(Area::Intron, Pct::whole(60), Pct::whole(95), "T1", "G1", "1"); // High area %
    let c2 = make_candidate(Area::Tss, Pct::whole(60), Pct::whole(80), "T1", "G1", "1"); // Low area %

    let candidates = vec![c1, c2];
    let groups = vec![vec![0, 1]];

    let result = apply_rules(&candidates, &groups, &Pct::whole(50), &Pct::whole(90), &rules);

    // c1 passes area threshold, c2 doesn't, so c1 should win
    assert_eq!(result.len(), 1);
    assert_eq!(result[0].area, Area::Intron);
}

#[test]
fn test_all_below_area_threshold() {
    let rules = vec![Area::Tss, Area::Intron];

    let c1 = make_candidate(Area::Intron, Pct::whole(60), Pct::whole(80), "T1", "G1", "1");
    let c2 = make_candidate(Area::Tss, Pct::whole(60), Pct::whole(85), "T1", "G1", "1");

    let candidates = vec![c1, c2];
    let groups = vec![vec![0, 1]];

    let result = apply_rules(&candidates, &groups, &Pct::whole(50), &Pct::whole(90), &rules);

    // Both below area threshold, so fallback to rules priority
    assert_eq!(result.len(), 1);
    assert_eq!(result[0].area, Area::Tss);
}

#[test]
fn unit_tests_test_empty_candidates() {
    let rules = default_rules();
    let candidates: Vec<Candidate> = vec![];
    let groups: Vec<Vec<usize>> = vec![];

    let result = apply_rules(&candidates, &groups, &Pct::whole(50), &Pct::whole(90), &rules);
    assert!(result.is_empty());
}

#[test]
fn test_multiple_groups() {
    let rules = vec![Area::Tss, Area::Intron];

    let c1 = make_candidate(Area::Intron, Pct::whole(100), Pct::whole(100), "T1", "G1", "1");
    let c2 = make_candidate(Area::Tss, Pct::whole(100), Pct::whole(100), "T1", "G1", "1");
    let c3 = make_candidate(Area::Promoter, Pct::whole(100), Pct::whole(100), "T2", "G2", "2");

    let candidates = vec![c1, c2, c3];
    let groups = vec![vec![0, 1], vec![2]];

    let result = apply_rules(&candidates, &groups, &Pct::whole(50), &Pct::whole(90), &rules);

    // Should have 2 results - one from each group
    assert_eq!(result.len(), 2);
}

#[test]
fn test_single_candidate_group() {
    let rules = default_rules();
    let c1 = make_candidate(Area::Downstream, Pct::whole(30), Pct::whole(20), "T1", "G1", "1");

    let candidates = vec![c1];
    let groups = vec![vec![0]];

    let result = apply_rules(&candidates, &groups, &Pct::whole(50), &Pct::whole(90), &rules);

    // Single candidate is always returned regardless of thresholds
    assert_eq!(result.len(), 1);
    assert_eq!(result[0].area, Area::Downstream);
}

#[test]
fn test_area_not_in_rules() {
    // Rules that don't include all area types
    let rules = vec![Area::Tss, Area::Promoter];

    let c1 = make_candidate(Area::Intron, Pct::whole(100), Pct::whole(100), "T1", "G1", "1");
    let c2 = make_candidate(Area::GeneBody, Pct::whole(100), Pct::whole(100), "T1", "G1", "1");

    let candidates = vec![c1, c2];
    let groups = vec![vec![0, 1]];

    let result = apply_rules(&candidates, &groups, &Pct::whole(50), &Pct::whole(90), &rules);

    // No rules match, so nothing is reported
    assert!(result.is_empty());
}

#[test]
fn test_sentinel_area_exempt_from_threshold() {
    // A sentinel area percentage passes the area filter unconditionally.
    let rules = vec![Area::Tss, Area::Upstream];

    let c1 = make_candidate(Area::Upstream, Pct::whole(60), Pct::NotApplicable, "T1", "G1", "1");
    let c2 = make_candidate(Area::Tss, Pct::whole(60), Pct::whole(80), "T1", "G1", "1");

    let candidates = vec![c1, c2];
    let groups = vec![vec![0, 1]];

    let result = apply_rules(&candidates, &groups, &Pct::whole(50), &Pct::whole(90), &rules);

    assert_eq!(result.len(), 1);
    assert_eq!(result[0].area, Area::Upstream);
}

#[test]
fn test_single_candidate_per_gene() {
    let rules = default_rules();
    let c1 = make_candidate(Area::Tss, Pct::whole(100), Pct::whole(100), "T1", "G1", "1");
    let candidates = vec![c1];
    let groups = vec![vec![0]];

    let result = select_transcript(&candidates, &groups, &rules);
    assert_eq!(result.len(), 1);
}

#[test]
fn test_multiple_candidates_different_areas() {
    let rules = default_rules();
    let c1 = make_candidate(Area::Intron, Pct::whole(100), Pct::whole(100), "T1", "G1", "1");
    let c2 = make_candidate(Area::Tss, Pct::whole(100), Pct::whole(100), "T2", "G1", "1");
    let candidates = vec![c1, c2];
    let groups = vec![vec![0, 1]];

    let result = select_transcript(&candidates, &groups, &rules);
    assert_eq!(result.len(), 1);
    assert_eq!(result[0].area, Area::Tss);
}

#[test]
fn test_multiple_candidates_same_area_tie() {
    let rules = default_rules();
    let c1 = make_candidate(Area::Tss, Pct::whole(80), Pct::whole(70), "T1", "G1", "1");
    let c2 = make_candidate(Area::Tss, Pct::whole(90), Pct::whole(60), "T2", "G1", "2");
    let candidates = vec![c1, c2];
    let groups = vec![vec![0, 1]];

    let result = select_transcript(&candidates, &groups, &rules);
    assert_eq!(result.len(), 1);
    // Should contain merged transcript info
    assert!(result[0].transcript.contains("T1"));
    assert!(result[0].transcript.contains("T2"));
}

#[test]
fn test_merged_output_pctg_values() {
    let rules = default_rules();
    let c1 = make_candidate(Area::Tss, Pct::whole(80), Pct::whole(70), "T1", "G1", "1");
    let c2 = make_candidate(Area::Tss, Pct::whole(90), Pct::whole(60), "T2", "G1", "3");
    let candidates = vec![c1, c2];
    let groups = vec![vec![0, 1]];

    let result = select_transcript(&candidates, &groups, &rules);
    assert!(result[0].pctg_region.eq_value(&Pct::whole(90))); // max of 80, 90
    assert!(result[0].pctg_area.eq_value(&Pct::whole(70))); // max of 70, 60
}

#[test]
fn test_merged_exon_numbers() {
    let rules = default_rules();
    let c1 = make_candidate(Area::Tss, Pct::whole(100), Pct::whole(100), "T1", "G1", "1");
    let c2 = make_candidate(Area::Tss, Pct::whole(100), Pct::whole(100), "T2", "G1", "3");
    let candidates = vec![c1, c2];
    let groups = vec![vec![0, 1]];

    let result = select_transcript(&candidates, &groups, &rules);
    assert!(result[0].exon_number.contains("1"));
    assert!(result[0].exon_number.contains("3"));
}

#[test]
fn select_transcript_test_empty_candidates() {
    let rules = default_rules();
    let candidates: Vec<Candidate> = vec![];
    let groups: Vec<Vec<usize>> = vec![];

    let result = select_transcript(&candidates, &groups, &rules);
    assert!(result.is_empty());
}

#[test]
fn test_multiple_genes() {
    let rules = default_rules();
    let c1 = make_candidate(Area::Tss, Pct::whole(100), Pct::whole(100), "T1", "G1", "1");
    let c2 = make_candidate(Area::Intron, Pct::whole(100), Pct::whole(100), "T2", "G2", "2");
    let candidates = vec![c1, c2];
    let groups = vec![vec![0], vec![1]];

    let result = select_transcript(&candidates, &groups, &rules);
    assert_eq!(result.len(), 2);
}

#[test]
fn test_area_fallback_when_no_rules_match() {
    // Rules that don't include the candidate's area
    let rules = vec![Area::Tss, Area::Promoter];

    let c1 = make_candidate(Area::Intron, Pct::whole(100), Pct::whole(100), "T1", "G1", "1");
    let c2 = make_candidate(Area::GeneBody, Pct::whole(100), Pct::whole(100), "T2", "G1", "2");
    let candidates = vec![c1, c2];
    let groups = vec![vec![0, 1]];

    let result = select_transcript(&candidates, &groups, &rules);
    // Should fallback to first candidate's area
    assert_eq!(result.len(), 1);
    assert_eq!(result[0].area, Area::Intron);
}

#[test]
fn test_merged_transcript_preserves_fields() {
    let rules = default_rules();
    let c1 = make_candidate(Area::Tss, Pct::whole(80), Pct::whole(70), "T1", "G1", "1");
    let c2 = make_candidate(Area::Tss, Pct::whole(90), Pct::whole(60), "T2", "G1", "3");
    let candidates = vec![c1, c2];
    let groups = vec![vec![0, 1]];

    let result = select_transcript(&candidates, &groups, &rules);

    // Verify merged result preserves reference candidate fields
    assert_eq!(result[0].gene, "G1");
    assert_eq!(result[0].area, Area::Tss);
    assert_eq!(result[0].strand, Strand::Positive);
}

#[test]
fn test_three_way_merge() {
    let rules = default_rules();
    let c1 = make_candidate(Area::Tss, Pct::whole(70), Pct::whole(60), "T1", "G1", "1");
    let c2 = make_candidate(Area::Tss, Pct::whole(80), Pct::whole(50), "T2", "G1", "2");
    let c3 = make_candidate(Area::Tss, Pct::whole(90), Pct::whole(55), "T3", "G1", "3");
    let candidates = vec![c1, c2, c3];
    let groups = vec![vec![0, 1, 2]];

    let result = select_transcript(&candidates, &groups, &rules);

    assert_eq!(result.len(), 1);
    assert!(result[0].transcript.contains("T1"));
    assert!(result[0].transcript.contains("T2"));
    assert!(result[0].transcript.contains("T3"));
    assert!(result[0].pctg_region.eq_value(&Pct::whole(90))); // max of 70, 80, 90
    assert!(result[0].pctg_area.eq_value(&Pct::whole(60))); // max of 60, 50, 55
}

#[test]
fn test_merged_labels_are_canonical() {
    // The merged label lists are sorted and duplicate-free, so the merge
    // does not depend on the order of the group's candidates.
    let rules = default_rules();
    let c1 = make_candidate(Area::Tss, Pct::whole(70), Pct::whole(60), "T2", "G1", "3");
    let c2 = make_candidate(Area::Tss, Pct::whole(80), Pct::whole(50), "T1", "G1", "1");
    let c3 = make_candidate(Area::Tss, Pct::whole(90), Pct::whole(55), "T1", "G1", "1");
    let candidates = vec![c1, c2, c3];
    let groups = vec![vec![0, 1, 2]];

    let result = select_transcript(&candidates, &groups, &rules);

    assert_eq!(result.len(), 1);
    assert_eq!(result[0].transcript, "T1,T2");
    assert_eq!(result[0].exon_number, "1,3");
}
