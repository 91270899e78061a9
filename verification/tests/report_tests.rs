//! Tests of the report-side helpers: the standard metadata column
//! headers, region identifiers, and the line normalization used when
//! comparing formatted outputs.

use rgmatch::parser::bed::get_bed_headers;
use rgmatch::types::Region;
use std::collections::HashSet;

/// Parse output file content into a set of normalized lines for comparison
fn parse_output_lines(content: &str) -> HashSet<String> {
    content
        .lines()
        .skip(1) // Skip header
        .filter(|line| !line.is_empty())
        .map(normalize_line)
        .collect()
}

/// Normalize a line for comparison (handle floating point formatting)
fn normalize_line(line: &str) -> String {
    let fields: Vec<&str> = line.split('\t').collect();
    if fields.len() < 10 {
        return line.to_string();
    }

    // Fields that need float normalization (indices 8 and 9 are PercRegion and PercArea)
    let mut normalized = Vec::new();
    for (i, field) in fields.iter().enumerate() {
        if i == 8 || i == 9 {
            // Normalize float to 2 decimal places
            if let Ok(f) = field.parse::<f64>() {
                normalized.push(format!("{:.2}", f));
            } else {
                normalized.push(field.to_string());
            }
        } else {
            normalized.push(field.to_string());
        }
    }
    normalized.join("\t")
}

#[test]
fn test_normalize_line() {
    let line = "chr1_100_200\t150\tG1\tT1\t1\tTSS\t0\t100\t99.999\t50.001\tname";
    let normalized = normalize_line(line);
    assert!(normalized.contains("100.00"));
    assert!(normalized.contains("50.00"));
}

#[test]
fn test_parse_output_lines() {
    let content = "Header\nline1\nline2\n";
    let lines = parse_output_lines(content);
    assert_eq!(lines.len(), 2);
    assert!(!lines.contains("Header"));
}

#[test]
fn test_get_bed_headers() {
    assert_eq!(get_bed_headers(0), Vec::<&str>::new());
    assert_eq!(get_bed_headers(3), vec!["name", "score", "strand"]);
    assert_eq!(
        get_bed_headers(9),
        vec![
            "name",
            "score",
            "strand",
            "thickStart",
            "thickEnd",
            "itemRgb",
            "blockCount",
            "blockSizes",
            "blockStarts"
        ]
    );
}

#[test]
fn test_get_bed_headers_beyond_nine() {
    // Requesting more than 9 headers should return exactly 9 (all available)
    let headers = get_bed_headers(15);
    assert_eq!(headers.len(), 9);
    assert_eq!(headers[8], "blockStarts");
}

#[test]
fn test_get_bed_headers_exactly_nine() {
    let headers = get_bed_headers(9);
    assert_eq!(headers.len(), 9);
    assert_eq!(
        headers,
        vec![
            "name",
            "score",
            "strand",
            "thickStart",
            "thickEnd",
            "itemRgb",
            "blockCount",
            "blockSizes",
            "blockStarts"
        ]
    );
}

#[test]
fn test_region_methods() {
    let region = Region::new("chr1".to_string(), 100, 200, vec!["test".to_string()]);

    assert_eq!(region.length(), 101);
    assert_eq!(region.midpoint(), 150);
    assert_eq!(region.id(), "chr1_100_200");
}

#[test]
fn test_region_midpoint_integer_division() {
    // Test that midpoint uses integer division
    let region = Region::new("chr1".to_string(), 100, 201, vec![]);
    // (100 + 201) / 2 = 150 (integer division)
    assert_eq!(region.midpoint(), 150);
}
