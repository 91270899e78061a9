//! Tests of the run configuration: defaults, rule parsing, distances.

use rgmatch::config::Config;
use rgmatch::pct::Pct;
use rgmatch::types::{Area, ReportLevel};

#[test]
fn test_default_config() {
    let config = Config::default();
    assert_eq!(config.rules.len(), 8);
    assert_eq!(config.perc_area, Pct::whole(90));
    assert_eq!(config.perc_region, Pct::whole(50));
    assert_eq!(config.tss, 200);
    assert_eq!(config.tts, 0);
    assert_eq!(config.promoter, 1300);
    assert_eq!(config.distance, 10000);
}

#[test]
fn test_parse_rules_valid() {
    let mut config = Config::new();
    let result =
        config.parse_rules("DOWNSTREAM,UPSTREAM,GENE_BODY,INTRON,TTS,PROMOTER,1st_EXON,TSS");
    assert!(result);
    assert_eq!(config.rules.len(), 8);
    assert_eq!(config.rules[0], Area::Downstream);
    assert_eq!(config.rules[7], Area::Tss);
}

#[test]
fn test_parse_rules_missing_tags() {
    let mut config = Config::new();
    let result = config.parse_rules("TSS,1st_EXON,PROMOTER");
    assert!(!result);
}

#[test]
fn test_parse_rules_duplicate_tags() {
    let mut config = Config::new();
    let result = config.parse_rules("TSS,TSS,TSS,TSS,TSS,TSS,TSS,TSS");
    assert!(!result);
}

#[test]
fn test_parse_rules_case_sensitive() {
    let mut config = Config::new();
    let result =
        config.parse_rules("tss,1st_exon,promoter,tts,intron,gene_body,upstream,downstream");
    assert!(!result);
}

#[test]
fn test_set_distance_kb() {
    let mut config = Config::new();
    config.set_distance_kb(20);
    assert_eq!(config.distance, 20000);

    config.set_distance_kb(-1);
    assert_eq!(config.distance, 20000); // Should not change
}

#[test]
fn test_set_distance_kb_zero() {
    let mut config = Config::new();
    config.set_distance_kb(0);
    assert_eq!(config.distance, 0);
}

#[test]
fn test_max_lookback_distance_default() {
    let config = Config::default();
    // Default: distance = 10000, tss = 200, tts = 0, promoter = 1300
    // max_lookback = max(10000, max(200, 0, 1300)) = max(10000, 1300) = 10000
    assert_eq!(config.max_lookback_distance(), 10000);
}

#[test]
fn test_max_lookback_distance_large_tss() {
    let mut config = Config::default();
    config.tss = 15000;
    // max_lookback = max(10000, max(15000, 0, 1300)) = max(10000, 15000) = 15000
    assert_eq!(config.max_lookback_distance(), 15000);
}

#[test]
fn test_max_lookback_distance_large_promoter() {
    let mut config = Config::default();
    config.promoter = 20000;
    // max_lookback = max(10000, max(200, 0, 20000)) = max(10000, 20000) = 20000
    assert_eq!(config.max_lookback_distance(), 20000);
}

#[test]
fn test_max_lookback_distance_large_tts() {
    let mut config = Config::default();
    config.tts = 12000;
    // max_lookback = max(10000, max(200, 12000, 1300)) = max(10000, 12000) = 12000
    assert_eq!(config.max_lookback_distance(), 12000);
}

#[test]
fn test_config_new_equals_default() {
    let config_new = Config::new();
    let config_default = Config::default();
    assert_eq!(config_new.rules.len(), config_default.rules.len());
    assert_eq!(config_new.perc_area, config_default.perc_area);
    assert_eq!(config_new.perc_region, config_default.perc_region);
    assert_eq!(config_new.tss, config_default.tss);
    assert_eq!(config_new.tts, config_default.tts);
    assert_eq!(config_new.promoter, config_default.promoter);
    assert_eq!(config_new.distance, config_default.distance);
}

#[test]
fn test_config_default_level() {
    let config = Config::default();
    assert_eq!(config.level, ReportLevel::Exon);
}

#[test]
fn test_config_default_id_tags() {
    let config = Config::default();
    assert_eq!(config.gene_id_tag, "gene_id");
    assert_eq!(config.transcript_id_tag, "transcript_id");
}

#[test]
fn test_parse_rules_preserves_order() {
    let mut config = Config::new();
    let result =
        config.parse_rules("DOWNSTREAM,UPSTREAM,GENE_BODY,INTRON,TTS,PROMOTER,1st_EXON,TSS");
    assert!(result);
    // Verify order is preserved
    assert_eq!(config.rules[0], Area::Downstream);
    assert_eq!(config.rules[1], Area::Upstream);
    assert_eq!(config.rules[2], Area::GeneBody);
    assert_eq!(config.rules[3], Area::Intron);
    assert_eq!(config.rules[4], Area::Tts);
    assert_eq!(config.rules[5], Area::Promoter);
    assert_eq!(config.rules[6], Area::FirstExon);
    assert_eq!(config.rules[7], Area::Tss);
}

#[test]
fn test_parse_rules_with_unknown_tag() {
    let mut config = Config::new();
    // One valid, rest invalid
    let result = config.parse_rules("TSS,UNKNOWN1,UNKNOWN2,UNKNOWN3");
    assert!(!result);
}

#[test]
fn test_parse_rules_empty_string() {
    let mut config = Config::new();
    let result = config.parse_rules("");
    assert!(!result);
}

#[test]
fn test_parse_rules_failure_keeps_rules() {
    let mut config = Config::new();
    let before = config.rules.clone();
    assert!(!config.parse_rules("TSS,1st_EXON,PROMOTER"));
    assert_eq!(config.rules, before);
}
