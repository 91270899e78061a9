//! Tests of the overlap driver: window search, per-region matching,
//! aggregation dispatch, and the duplicate-zone regressions.

use rgmatch::config::Config;
use rgmatch::matcher::overlap::{
    find_search_start_index, match_region_to_genes, match_regions_to_genes,
    process_candidates_for_output,
};
use rgmatch::pct::Pct;
use rgmatch::types::{Area, Candidate, Exon, Gene, Region, ReportLevel, Strand, Transcript};
use std::collections::HashSet;

fn make_test_gene(
    gene_id: &str,
    start: i64,
    end: i64,
    strand: Strand,
    exons: Vec<(i64, i64)>,
) -> Gene {
    let mut gene = Gene::new(gene_id.to_string(), strand);
    gene.set_length(start, end);
    let mut transcript = Transcript::new(format!("TRANS_{}", gene_id.replace("GENE", "")));
    for (i, (exon_start, exon_end)) in exons.iter().enumerate() {
        let mut exon = Exon::new(*exon_start, *exon_end);
        exon.exon_number = Some((i + 1).to_string());
        transcript.add_exon(exon);
    }
    transcript.calculate_size();
    transcript.renumber_exons(strand);
    gene.transcripts.push(transcript);
    gene
}

/// A region partially overlapping the last exon from the left must yield
/// exactly one downstream row, not one per exon.
#[test]
fn test_no_duplicate_downstream_case2() {
    // Region [100, 200) partially overlaps exon [51, 150] on the left
    let config = Config::default();
    let region = Region::new("chr1".into(), 100, 200, vec!["region1".into()]);

    // Single-exon gene - partial overlap on the left of the last exon
    let genes = vec![make_test_gene(
        "GENE001",
        51,
        150,
        Strand::Positive,
        vec![(51, 150)],
    )];

    let last_index = 0;
    let candidates = match_region_to_genes(&region, &genes, &config, last_index);

    // Count DOWNSTREAM candidates for GENE001
    let downstream_count = candidates
        .iter()
        .filter(|c| c.gene == "GENE001" && c.area == Area::Downstream)
        .count();

    assert_eq!(
        downstream_count, 1,
        "GENE001 DOWNSTREAM should appear exactly once, not {}",
        downstream_count
    );
}

/// A region containing the whole exon must yield exactly one downstream
/// row.
#[test]
fn test_no_duplicate_downstream_case3() {
    // Region [1000, 1300) completely contains exon [1050, 1200]
    let config = Config::default();
    let region = Region::new("chr1".into(), 1000, 1300, vec!["region2".into()]);

    let genes = vec![make_test_gene(
        "GENE002",
        1050,
        1200,
        Strand::Positive,
        vec![(1050, 1200)],
    )];

    let last_index = 0;
    let candidates = match_region_to_genes(&region, &genes, &config, last_index);

    let downstream_count = candidates
        .iter()
        .filter(|c| c.gene == "GENE002" && c.area == Area::Downstream)
        .count();

    assert_eq!(
        downstream_count, 1,
        "GENE002 DOWNSTREAM should appear exactly once, not {}",
        downstream_count
    );
}

/// A proximity candidate from an earlier gene survives when a later gene
/// overlaps the region.
#[test]
fn test_proximity_candidate_preserved() {
    // Region [5000, 5100)
    // GENE003: multi-exon gene ending at 4900 (proximity candidate)
    // GENE004: multi-exon gene with exon overlapping region (overlapping candidate)
    let config = Config::default();
    let region = Region::new("chr1".into(), 5000, 5100, vec!["region3".into()]);

    let genes = vec![
        // GENE003: ends at 4900, 100bp before region - should be DOWNSTREAM proximity
        make_test_gene(
            "GENE003",
            4700,
            4900,
            Strand::Positive,
            vec![(4700, 4750), (4800, 4900)],
        ),
        // GENE004: exon 2 overlaps region at [4950, 5050]
        make_test_gene(
            "GENE004",
            4850,
            5200,
            Strand::Positive,
            vec![(4850, 4900), (4950, 5050)],
        ),
    ];

    let last_index = 0;
    let candidates = match_region_to_genes(&region, &genes, &config, last_index);

    // GENE003 DOWNSTREAM should be preserved (proximity candidate)
    let gene003_downstream = candidates
        .iter()
        .any(|c| c.gene == "GENE003" && c.area == Area::Downstream);

    // GENE004 should also have candidates (overlapping)
    let gene004_present = candidates.iter().any(|c| c.gene == "GENE004");

    assert!(
        gene003_downstream,
        "GENE003 DOWNSTREAM proximity candidate should be preserved"
    );
    assert!(
        gene004_present,
        "GENE004 overlapping candidate should be present"
    );
}

/// No (gene, transcript, zone) key appears twice across the test regions.
#[test]
fn test_no_duplicate_lines_overall() {
    let config = Config::default();

    let regions = vec![
        Region::new("chr1".into(), 100, 200, vec!["region1".into()]),
        Region::new("chr1".into(), 1000, 1300, vec!["region2".into()]),
        Region::new("chr1".into(), 5000, 5100, vec!["region3".into()]),
    ];

    let genes = vec![
        make_test_gene("GENE001", 51, 150, Strand::Positive, vec![(51, 150)]),
        make_test_gene("GENE002", 1050, 1200, Strand::Positive, vec![(1050, 1200)]),
        make_test_gene(
            "GENE003",
            4700,
            4900,
            Strand::Positive,
            vec![(4700, 4750), (4800, 4900)],
        ),
        make_test_gene(
            "GENE004",
            4850,
            5200,
            Strand::Positive,
            vec![(4850, 4900), (4950, 5050)],
        ),
    ];

    for region in &regions {
        let last_index = 0;
        let candidates = match_region_to_genes(region, &genes, &config, last_index);

        // Create unique key for each candidate
        let keys: Vec<String> = candidates
            .iter()
            .map(|c| format!("{}_{}_{:?}", c.gene, c.transcript, c.area))
            .collect();
        let unique_keys: HashSet<_> = keys.iter().collect();

        assert_eq!(
            keys.len(),
            unique_keys.len(),
            "Duplicate candidates found for region {:?}",
            region.id()
        );
    }
}

#[test]
fn test_find_search_start_index_empty() {
    let genes: Vec<Gene> = vec![];
    assert_eq!(find_search_start_index(&genes, 1000), 0);
}

#[test]
fn test_find_search_start_index_all_before() {
    let genes = vec![
        make_test_gene("G1", 100, 200, Strand::Positive, vec![(100, 200)]),
        make_test_gene("G2", 300, 400, Strand::Positive, vec![(300, 400)]),
    ];
    // All genes start before 1000
    assert_eq!(find_search_start_index(&genes, 1000), 2);
}

#[test]
fn test_find_search_start_index_all_after() {
    let genes = vec![
        make_test_gene("G1", 1000, 2000, Strand::Positive, vec![(1000, 2000)]),
        make_test_gene("G2", 3000, 4000, Strand::Positive, vec![(3000, 4000)]),
    ];
    // All genes start at or after 100
    assert_eq!(find_search_start_index(&genes, 100), 0);
}

#[test]
fn test_find_search_start_index_middle() {
    let genes = vec![
        make_test_gene("G1", 100, 200, Strand::Positive, vec![(100, 200)]),
        make_test_gene("G2", 500, 600, Strand::Positive, vec![(500, 600)]),
        make_test_gene("G3", 1000, 1100, Strand::Positive, vec![(1000, 1100)]),
    ];
    // First gene with start >= 500
    assert_eq!(find_search_start_index(&genes, 500), 1);
    // First gene with start >= 600
    assert_eq!(find_search_start_index(&genes, 600), 2);
}

#[test]
fn test_process_candidates_for_output_empty() {
    let config = Config::default();
    let candidates: Vec<Candidate> = vec![];
    let result = process_candidates_for_output(candidates, &config);
    assert!(result.is_empty());
}

#[test]
fn test_process_candidates_for_output_exon_level() {
    let mut config = Config::default();
    config.level = ReportLevel::Exon;

    let candidates = vec![
        Candidate::new(
            100,
            200,
            Strand::Positive,
            "1".to_string(),
            Area::Tss,
            "T1".to_string(),
            "G1".to_string(),
            0,
            Pct::whole(80),
            Pct::whole(90),
            100,
        ),
        Candidate::new(
            300,
            400,
            Strand::Positive,
            "2".to_string(),
            Area::Intron,
            "T1".to_string(),
            "G1".to_string(),
            0,
            Pct::whole(60),
            Pct::whole(70),
            200,
        ),
    ];

    let result = process_candidates_for_output(candidates, &config);
    // Exon level returns all candidates
    assert_eq!(result.len(), 2);
}

#[test]
fn test_process_candidates_for_output_transcript_level() {
    let mut config = Config::default();
    config.level = ReportLevel::Transcript;

    let candidates = vec![
        Candidate::new(
            100,
            200,
            Strand::Positive,
            "1".to_string(),
            Area::Tss,
            "T1".to_string(),
            "G1".to_string(),
            0,
            Pct::whole(80),
            Pct::whole(95),
            100,
        ),
        Candidate::new(
            300,
            400,
            Strand::Positive,
            "2".to_string(),
            Area::Intron,
            "T1".to_string(),
            "G1".to_string(),
            0,
            Pct::whole(60),
            Pct::whole(95),
            200,
        ),
    ];

    let result = process_candidates_for_output(candidates, &config);
    // Transcript level returns best per transcript (TSS has higher priority)
    assert_eq!(result.len(), 1);
    assert_eq!(result[0].area, Area::Tss);
}

#[test]
fn test_process_candidates_for_output_gene_level() {
    let mut config = Config::default();
    config.level = ReportLevel::Gene;

    let candidates = vec![
        Candidate::new(
            100,
            200,
            Strand::Positive,
            "1".to_string(),
            Area::Tss,
            "T1".to_string(),
            "G1".to_string(),
            0,
            Pct::whole(80),
            Pct::whole(95),
            100,
        ),
        Candidate::new(
            300,
            400,
            Strand::Positive,
            "2".to_string(),
            Area::Tss,
            "T2".to_string(),
            "G1".to_string(),
            0,
            Pct::whole(90),
            Pct::whole(95),
            200,
        ),
    ];

    let result = process_candidates_for_output(candidates, &config);
    // Gene level merges candidates with same area
    assert_eq!(result.len(), 1);
    assert!(result[0].transcript.contains("T1"));
    assert!(result[0].transcript.contains("T2"));
}

#[test]
fn test_match_regions_to_genes_empty_regions() {
    let config = Config::default();
    let regions: Vec<Region> = vec![];
    let genes = vec![make_test_gene(
        "G1",
        100,
        200,
        Strand::Positive,
        vec![(100, 200)],
    )];

    let results = match_regions_to_genes(&regions, &genes, &config, 500);
    assert!(results.is_empty());
}

#[test]
fn test_match_regions_to_genes_empty_genes() {
    let config = Config::default();
    let regions = vec![Region::new("chr1".into(), 100, 200, vec![])];
    let genes: Vec<Gene> = vec![];

    let results = match_regions_to_genes(&regions, &genes, &config, 0);
    assert_eq!(results.len(), 1);
    assert!(results[0].1.is_empty()); // No candidates
}

#[test]
fn test_match_regions_to_genes_single_match() {
    let config = Config::default();
    let regions = vec![Region::new("chr1".into(), 100, 200, vec![])];
    let genes = vec![make_test_gene(
        "G1",
        50,
        250,
        Strand::Positive,
        vec![(50, 250)],
    )];

    let results = match_regions_to_genes(&regions, &genes, &config, 500);
    assert_eq!(results.len(), 1);
    assert!(!results[0].1.is_empty());
}

#[test]
fn test_match_regions_to_genes_preserves_region() {
    let config = Config::default();
    let regions = vec![Region::new(
        "chr1".into(),
        100,
        200,
        vec!["metadata1".into()],
    )];
    let genes = vec![make_test_gene(
        "G1",
        50,
        250,
        Strand::Positive,
        vec![(50, 250)],
    )];

    let results = match_regions_to_genes(&regions, &genes, &config, 500);
    assert_eq!(results[0].0.chrom, "chr1");
    assert_eq!(results[0].0.start, 100);
    assert_eq!(results[0].0.end, 200);
    assert_eq!(results[0].0.metadata[0], "metadata1");
}

#[test]
fn test_match_region_to_genes_intron() {
    let config = Config::default();
    // Region inside intron
    let region = Region::new("chr1".into(), 250, 350, vec![]);
    let genes = vec![make_test_gene(
        "G1",
        100,
        500,
        Strand::Positive,
        vec![(100, 200), (400, 500)],
    )];

    let candidates = match_region_to_genes(&region, &genes, &config, 0);
    let has_intron = candidates.iter().any(|c| c.area == Area::Intron);
    assert!(has_intron, "Should find intron overlap");
}

#[test]
fn test_match_region_to_genes_first_exon() {
    let config = Config::default();
    // Region overlapping first exon
    let region = Region::new("chr1".into(), 90, 150, vec![]);
    let genes = vec![make_test_gene(
        "G1",
        100,
        500,
        Strand::Positive,
        vec![(100, 200), (400, 500)],
    )];

    let candidates = match_region_to_genes(&region, &genes, &config, 0);
    let has_first_exon = candidates.iter().any(|c| c.area == Area::FirstExon);
    assert!(has_first_exon, "Should find first exon overlap");
}

#[test]
fn test_match_region_to_genes_gene_body() {
    let config = Config::default();
    // Region overlapping non-first exon
    let region = Region::new("chr1".into(), 380, 450, vec![]);
    let genes = vec![make_test_gene(
        "G1",
        100,
        500,
        Strand::Positive,
        vec![(100, 200), (400, 500)],
    )];

    let candidates = match_region_to_genes(&region, &genes, &config, 0);
    let has_gene_body = candidates.iter().any(|c| c.area == Area::GeneBody);
    assert!(has_gene_body, "Should find gene body overlap");
}

#[test]
fn test_match_region_to_genes_negative_strand() {
    let config = Config::default();
    // Region overlapping first exon on negative strand (last in genomic order)
    let region = Region::new("chr1".into(), 380, 450, vec![]);
    let genes = vec![make_test_gene(
        "G1",
        100,
        500,
        Strand::Negative,
        vec![(100, 200), (400, 500)],
    )];

    let candidates = match_region_to_genes(&region, &genes, &config, 0);
    let has_first_exon = candidates.iter().any(|c| c.area == Area::FirstExon);
    assert!(
        has_first_exon,
        "Should find first exon (last genomic) for negative strand"
    );
}

/// Running the exon-level aggregation twice yields identical output.
#[test]
fn test_exon_level_aggregation_idempotent() {
    let mut config = Config::default();
    config.level = ReportLevel::Exon;
    let region = Region::new("chr1".into(), 90, 150, vec![]);
    let genes = vec![make_test_gene(
        "G1",
        100,
        500,
        Strand::Positive,
        vec![(100, 200), (400, 500)],
    )];
    let raw = match_region_to_genes(&region, &genes, &config, 0);
    let keys = |cs: &[Candidate]| -> Vec<String> {
        cs.iter()
            .map(|c| format!("{}_{}_{:?}_{}", c.gene, c.transcript, c.area, c.distance))
            .collect()
    };
    let raw_keys = keys(&raw);
    let once = process_candidates_for_output(raw, &config);
    assert_eq!(keys(&once), raw_keys);
    let twice = process_candidates_for_output(once, &config);
    assert_eq!(keys(&twice), raw_keys);
}

/// Gene-level output does not depend on the order of the candidates
/// within a gene's group.
#[test]
fn test_gene_level_stable_under_reordering() {
    let mut config = Config::default();
    config.level = ReportLevel::Gene;
    let make = |t: &str, pr: i64, label: &str| {
        Candidate::new(
            100,
            200,
            Strand::Positive,
            label.to_string(),
            Area::Tss,
            t.to_string(),
            "G1".to_string(),
            0,
            Pct::whole(pr),
            Pct::whole(95),
            100,
        )
    };
    let forward = vec![make("T1", 70, "1"), make("T2", 90, "3"), make("T3", 80, "2")];
    let backward = vec![make("T3", 80, "2"), make("T2", 90, "3"), make("T1", 70, "1")];
    let a = process_candidates_for_output(forward, &config);
    let b = process_candidates_for_output(backward, &config);
    assert_eq!(a.len(), 1);
    assert_eq!(b.len(), 1);
    assert_eq!(a[0].area, b[0].area);
    assert_eq!(a[0].transcript, b[0].transcript);
    assert_eq!(a[0].exon_number, b[0].exon_number);
    assert!(a[0].pctg_region.eq_value(&b[0].pctg_region));
    assert!(a[0].pctg_area.eq_value(&b[0].pctg_area));
}
