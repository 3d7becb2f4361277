//! Unit tests for the matching core: coordinate mirroring, rule
//! application, classification scenarios, and formatting.

use rgmatch::config::Config;
use rgmatch::matcher::overlap::{
    aggregate_entries, calculate_intron_number, find_search_start_index, match_region_to_genes,
    match_regions_to_genes, process_candidates_for_output, AggEntry, AggGroup,
};
use rgmatch::matcher::rules::{apply_rules, select_transcript};
use rgmatch::matcher::tss::{check_tss, TssExonInfo};
use rgmatch::matcher::tts::{check_tts, TtsExonInfo};
use rgmatch::output::{format_output_line, format_pct, get_bed_headers, write_header};
use rgmatch::schedule::{run_chunks_in_order, run_chunks_reassembled};
use rgmatch::types::{Area, Candidate, Exon, Gene, Region, ReportLevel, Strand, Transcript};
use rgmatch::Pct;

fn make_candidate(
    area: Area,
    pctg_region: Pct,
    pctg_area: Pct,
    transcript: &str,
    gene: &str,
    exon_number: &str,
) -> Candidate {
    Candidate::new(
        100,
        200,
        Strand::Positive,
        exon_number.to_string(),
        area,
        transcript.to_string(),
        gene.to_string(),
        0,
        pctg_region,
        pctg_area,
        100,
    )
}

fn default_rules() -> Vec<Area> {
    vec![
        Area::Tss,
        Area::FirstExon,
        Area::Promoter,
        Area::Tts,
        Area::Intron,
        Area::GeneBody,
        Area::Upstream,
        Area::Downstream,
    ]
}

fn group(key: &str, positions: Vec<usize>) -> Vec<(String, Vec<usize>)> {
    vec![(key.to_string(), positions)]
}

fn make_test_gene(
    gene_id: &str,
    start: i64,
    end: i64,
    strand: Strand,
    exons: Vec<(i64, i64)>,
) -> Gene {
    let mut gene = Gene::new(gene_id.to_string(), strand);
    gene.set_length(start, end);
    let mut transcript = Transcript::new(format!("TRANS_{}", gene_id.replace("GENE", "")));
    for (exon_start, exon_end) in exons.iter() {
        transcript.add_exon(Exon::new(*exon_start, *exon_end));
    }
    transcript.calculate_size();
    transcript.renumber_exons(strand);
    gene.transcripts.push(transcript);
    gene
}

// ---- zone checker: TSS side ----

#[test]
fn test_entirely_in_tss_zone() {
    let exon = TssExonInfo { start: 2000, end: 3000, strand: Strand::Positive, distance: 0 };
    let res = check_tss(1900, 1950, &exon, 200, 1300);
    assert_eq!(res.len(), 1);
    assert_eq!(res[0].0, Area::Tss);
    assert_eq!(res[0].1, Pct::new(5100, 51)); // 100% of the query
}

#[test]
fn test_entirely_in_promoter_zone() {
    let exon = TssExonInfo { start: 2000, end: 3000, strand: Strand::Positive, distance: 500 };
    let res = check_tss(1400, 1500, &exon, 200, 1300);
    assert!(res.iter().any(|h| h.0 == Area::Promoter));
}

#[test]
fn test_spans_promoter_and_upstream() {
    let exon = TssExonInfo { start: 2000, end: 3000, strand: Strand::Positive, distance: 1400 };
    let res = check_tss(100, 700, &exon, 200, 1300);
    assert!(res.iter().any(|h| h.0 == Area::Promoter || h.0 == Area::Upstream));
}

#[test]
fn test_entirely_in_upstream_zone() {
    let exon = TssExonInfo { start: 10000, end: 11000, strand: Strand::Positive, distance: 5000 };
    let res = check_tss(4000, 4500, &exon, 200, 1300);
    assert_eq!(res.len(), 1);
    assert_eq!(res[0].0, Area::Upstream);
    assert_eq!(res[0].1, Pct::whole(100));
    assert_eq!(res[0].2, Pct::not_applicable());
}

#[test]
fn test_neg_strand_entirely_in_tss() {
    let exon = TssExonInfo { start: 2000, end: 3000, strand: Strand::Negative, distance: 0 };
    let res = check_tss(3050, 3100, &exon, 200, 1300);
    assert!(res.iter().any(|h| h.0 == Area::Tss));
}

#[test]
fn test_neg_strand_upstream() {
    let exon = TssExonInfo { start: 2000, end: 3000, strand: Strand::Negative, distance: 3000 };
    let res = check_tss(6000, 6100, &exon, 200, 1300);
    assert!(res.iter().any(|h| h.0 == Area::Upstream));
}

#[test]
fn test_pos_strand_boundaries() {
    let exon = TssExonInfo { start: 2000, end: 3000, strand: Strand::Positive, distance: 0 };
    let res = check_tss(1800, 1810, &exon, 200, 1300);
    assert!(res.iter().any(|h| h.0 == Area::Tss), "1800 should be TSS");

    let res = check_tss(1799, 1810, &exon, 200, 1300);
    let tags: Vec<Area> = res.iter().map(|h| h.0).collect();
    assert!(tags.contains(&Area::Promoter));
    assert!(tags.contains(&Area::Tss));

    let exon_far = TssExonInfo { start: 2000, end: 3000, strand: Strand::Positive, distance: 1800 };
    let res = check_tss(100, 200, &exon_far, 200, 1300);
    let tags: Vec<Area> = res.iter().map(|h| h.0).collect();
    assert!(tags.contains(&Area::Upstream));
    assert!(!tags.contains(&Area::Tss));
    assert!(!tags.contains(&Area::Promoter));
}

#[test]
fn test_neg_strand_mirror() {
    let exon = TssExonInfo { start: 2000, end: 3000, strand: Strand::Negative, distance: 0 };
    let res = check_tss(3200, 3210, &exon, 200, 1300);
    assert!(res.iter().any(|h| h.0 == Area::Promoter));

    let res = check_tss(3100, 3150, &exon, 200, 1300);
    assert!(res.iter().any(|h| h.0 == Area::Tss));
}

#[test]
fn test_integer_division_check_tss() {
    let exon = TssExonInfo { start: 2000, end: 3000, strand: Strand::Positive, distance: 0 };
    let res = check_tss(1801, 1810, &exon, 200, 1300);
    assert!(!res.is_empty());
}

#[test]
fn test_zero_length_region_check_tss() {
    let exon = TssExonInfo { start: 2000, end: 3000, strand: Strand::Positive, distance: 0 };
    let res = check_tss(1900, 1899, &exon, 200, 1300);
    assert!(res.is_empty());
}

#[test]
fn test_zero_tss_value() {
    let exon = TssExonInfo { start: 2000, end: 3000, strand: Strand::Positive, distance: 500 };
    let res = check_tss(1500, 1600, &exon, 0, 1300);
    assert!(res.iter().any(|h| h.0 == Area::Promoter));
}

#[test]
fn test_large_tss_value() {
    let exon = TssExonInfo { start: 20000, end: 30000, strand: Strand::Positive, distance: 5000 };
    let res = check_tss(15000, 15100, &exon, 10000, 1300);
    assert!(res.iter().any(|h| h.0 == Area::Tss));
}

// ---- zone checker: TTS side ----

#[test]
fn test_entirely_in_tts_zone() {
    let exon = TtsExonInfo { start: 1000, end: 2000, strand: Strand::Positive, distance: 0 };
    let res = check_tts(2050, 2100, &exon, 200);
    assert_eq!(res.len(), 1);
    assert_eq!(res[0].0, Area::Tts);
}

#[test]
fn test_entirely_in_downstream_zone() {
    let exon = TtsExonInfo { start: 1000, end: 2000, strand: Strand::Positive, distance: 500 };
    let res = check_tts(2500, 2600, &exon, 200);
    assert_eq!(res.len(), 1);
    assert_eq!(res[0].0, Area::Downstream);
    assert_eq!(res[0].1, Pct::whole(100));
    assert_eq!(res[0].2, Pct::not_applicable());
}

#[test]
fn test_neg_strand_entirely_in_tts() {
    let exon = TtsExonInfo { start: 1000, end: 2000, strand: Strand::Negative, distance: 0 };
    let res = check_tts(900, 950, &exon, 200);
    assert_eq!(res.len(), 1);
    assert_eq!(res[0].0, Area::Tts);
}

#[test]
fn test_neg_strand_entirely_in_downstream() {
    let exon = TtsExonInfo { start: 1000, end: 2000, strand: Strand::Negative, distance: 500 };
    let res = check_tts(400, 500, &exon, 200);
    assert_eq!(res.len(), 1);
    assert_eq!(res[0].0, Area::Downstream);
}

#[test]
fn test_tts_zero_distance() {
    let exon = TtsExonInfo { start: 1000, end: 2000, strand: Strand::Positive, distance: 50 };
    let res = check_tts(2050, 2100, &exon, 0);
    assert_eq!(res.len(), 1);
    assert_eq!(res[0].0, Area::Downstream);
}

#[test]
fn test_tts_pctg_calculations() {
    let exon = TtsExonInfo { start: 1000, end: 2000, strand: Strand::Positive, distance: 0 };
    let res = check_tts(2050, 2150, &exon, 100);
    let tags: Vec<Area> = res.iter().map(|h| h.0).collect();
    assert!(tags.contains(&Area::Tts) && tags.contains(&Area::Downstream));
}

#[test]
fn test_pos_strand_tts() {
    let exon = TtsExonInfo { start: 1000, end: 2000, strand: Strand::Positive, distance: 0 };
    let res = check_tts(2100, 2150, &exon, 200);
    assert!(res.iter().any(|h| h.0 == Area::Tts));
}

#[test]
fn test_neg_strand_tts() {
    let exon = TtsExonInfo { start: 1000, end: 2000, strand: Strand::Negative, distance: 0 };
    let res = check_tts(850, 900, &exon, 200);
    assert!(res.iter().any(|h| h.0 == Area::Tts));
}

#[test]
fn test_zero_length_region_check_tts() {
    let exon = TtsExonInfo { start: 1000, end: 2000, strand: Strand::Positive, distance: 0 };
    let res = check_tts(2100, 2099, &exon, 200);
    assert!(res.is_empty());
}

// ---- rule engine ----

#[test]
fn test_priority_logic() {
    let rules = default_rules();
    let c1 = make_candidate(Area::Intron, Pct::whole(100), Pct::whole(100), "T1", "G1", "1");
    let c2 = make_candidate(Area::Tss, Pct::whole(100), Pct::whole(100), "T1", "G1", "1");
    let c3 = make_candidate(Area::GeneBody, Pct::whole(100), Pct::whole(100), "T1", "G1", "1");
    let candidates = vec![c1, c2, c3];
    let grouped_by = group("trans1", vec![0, 1, 2]);
    let result = apply_rules(&candidates, &grouped_by, Pct::whole(50), Pct::whole(90), &rules);
    assert_eq!(result.len(), 1);
    assert_eq!(result[0].area, Area::Tss);
}

#[test]
fn test_priority_logic_custom_rules() {
    // Area "Intron" placed before "Tss": two same-transcript candidates at
    // equal full coverage reduce to the Intron candidate only
    let rules = vec![Area::Intron, Area::Tss];
    let c1 = make_candidate(Area::Intron, Pct::whole(100), Pct::whole(100), "T1", "G1", "1");
    let c2 = make_candidate(Area::Tss, Pct::whole(100), Pct::whole(100), "T1", "G1", "1");
    let candidates = vec![c1, c2];
    let grouped_by = group("trans1", vec![0, 1]);
    let result = apply_rules(&candidates, &grouped_by, Pct::whole(50), Pct::whole(90), &rules);
    assert_eq!(result.len(), 1);
    assert_eq!(result[0].area, Area::Intron);
}

#[test]
fn test_single_candidate() {
    let rules = vec![Area::Tss];
    let c1 = make_candidate(Area::Tss, Pct::whole(100), Pct::whole(100), "T1", "G1", "1");
    let candidates = vec![c1];
    let grouped_by = group("T1", vec![0]);
    let result = apply_rules(&candidates, &grouped_by, Pct::whole(50), Pct::whole(90), &rules);
    assert_eq!(result.len(), 1);
}

#[test]
fn test_pctg_region_threshold() {
    let rules = vec![Area::Tss, Area::Intron];
    let c1 = make_candidate(Area::Intron, Pct::whole(60), Pct::whole(100), "T1", "G1", "1");
    let c2 = make_candidate(Area::Tss, Pct::whole(40), Pct::whole(100), "T1", "G1", "1");
    let candidates = vec![c1, c2];
    let grouped_by = group("T1", vec![0, 1]);
    let result = apply_rules(&candidates, &grouped_by, Pct::whole(50), Pct::whole(90), &rules);
    assert_eq!(result.len(), 1);
    assert_eq!(result[0].area, Area::Intron);
}

#[test]
fn test_all_below_region_threshold() {
    let rules = vec![Area::Tss, Area::Intron];
    let c1 = make_candidate(Area::Intron, Pct::whole(30), Pct::whole(100), "T1", "G1", "1");
    let c2 = make_candidate(Area::Tss, Pct::whole(40), Pct::whole(100), "T1", "G1", "1");
    let candidates = vec![c1, c2];
    let grouped_by = group("T1", vec![0, 1]);
    let result = apply_rules(&candidates, &grouped_by, Pct::whole(90), Pct::whole(90), &rules);
    assert_eq!(result.len(), 1);
    assert_eq!(result[0].area, Area::Tss);
}

#[test]
fn test_max_pctg_region_tiebreaker() {
    let rules = vec![Area::Tss];
    let c1 = make_candidate(Area::Tss, Pct::whole(80), Pct::whole(100), "T1", "G1", "1");
    let c2 = make_candidate(Area::Tss, Pct::whole(90), Pct::whole(100), "T2", "G1", "1");
    let candidates = vec![c1, c2];
    let grouped_by = group("T1", vec![0, 1]);
    let result = apply_rules(&candidates, &grouped_by, Pct::whole(50), Pct::whole(90), &rules);
    assert_eq!(result.len(), 1);
    assert_eq!(result[0].pctg_region, Pct::whole(90));
}

#[test]
fn test_same_area_same_pctg_region_tie() {
    let rules = vec![Area::Tss];
    let c1 = make_candidate(Area::Tss, Pct::whole(80), Pct::whole(100), "T1", "G1", "1");
    let c2 = make_candidate(Area::Tss, Pct::whole(80), Pct::whole(100), "T2", "G1", "1");
    let candidates = vec![c1, c2];
    let grouped_by = group("T1", vec![0, 1]);
    let result = apply_rules(&candidates, &grouped_by, Pct::whole(50), Pct::whole(90), &rules);
    assert_eq!(result.len(), 2);
}

#[test]
fn test_empty_grouped_by() {
    let rules = default_rules();
    let candidates: Vec<Candidate> = vec![];
    let grouped_by: Vec<(String, Vec<usize>)> = Vec::new();
    let result = apply_rules(&candidates, &grouped_by, Pct::whole(50), Pct::whole(90), &rules);
    assert!(result.is_empty());
}

#[test]
fn test_pctg_area_threshold_filter() {
    let rules = vec![Area::Tss, Area::Intron];
    let c1 = make_candidate(Area::Intron, Pct::whole(60), Pct::whole(95), "T1", "G1", "1");
    let c2 = make_candidate(Area::Tss, Pct::whole(60), Pct::whole(85), "T1", "G1", "1");
    let candidates = vec![c1, c2];
    let grouped_by = group("T1", vec![0, 1]);
    let result = apply_rules(&candidates, &grouped_by, Pct::whole(50), Pct::whole(90), &rules);
    assert_eq!(result.len(), 1);
    assert_eq!(result[0].area, Area::Intron);
}

#[test]
fn test_multiple_groups() {
    let rules = vec![Area::Tss, Area::Intron];
    let c1 = make_candidate(Area::Tss, Pct::whole(100), Pct::whole(100), "T1", "G1", "1");
    let c2 = make_candidate(Area::Intron, Pct::whole(100), Pct::whole(100), "T2", "G2", "1");
    let c3 = make_candidate(Area::Promoter, Pct::whole(100), Pct::whole(100), "T3", "G3", "1");
    let candidates = vec![c1, c2, c3];
    let grouped_by = vec![
        ("T1".to_string(), vec![0]),
        ("T2".to_string(), vec![1]),
        ("T3".to_string(), vec![2]),
    ];
    let result = apply_rules(&candidates, &grouped_by, Pct::whole(50), Pct::whole(90), &rules);
    assert_eq!(result.len(), 3);
}

#[test]
fn test_rules_no_matching_area() {
    let rules = vec![Area::Upstream, Area::Downstream];
    let c1 = make_candidate(Area::Tss, Pct::whole(100), Pct::whole(100), "T1", "G1", "1");
    let c2 = make_candidate(Area::Intron, Pct::whole(100), Pct::whole(100), "T1", "G1", "2");
    let candidates = vec![c1, c2];
    let grouped_by = group("T1", vec![0, 1]);
    let result = apply_rules(&candidates, &grouped_by, Pct::whole(50), Pct::whole(90), &rules);
    assert!(result.is_empty() || result.len() <= 2);
}

#[test]
fn test_select_transcript_empty() {
    let rules = default_rules();
    let candidates: Vec<Candidate> = vec![];
    let grouped_by: Vec<(String, Vec<usize>)> = Vec::new();
    let result = select_transcript(&candidates, &grouped_by, &rules);
    assert!(result.is_empty());
}

#[test]
fn test_select_transcript_no_rules_match() {
    let rules = vec![Area::Upstream, Area::Downstream];
    let c1 = make_candidate(Area::Tss, Pct::whole(100), Pct::whole(100), "T1", "G1", "1");
    let c2 = make_candidate(Area::Tss, Pct::whole(100), Pct::whole(100), "T2", "G1", "2");
    let candidates = vec![c1, c2];
    let grouped_by = group("G1", vec![0, 1]);
    let result = select_transcript(&candidates, &grouped_by, &rules);
    assert_eq!(result.len(), 1);
    assert_eq!(result[0].area, Area::Tss);
}

#[test]
fn test_select_transcript_multiple_genes() {
    let rules = vec![Area::Tss, Area::Intron];
    let c1 = make_candidate(Area::Tss, Pct::whole(100), Pct::whole(100), "T1", "G1", "1");
    let c2 = make_candidate(Area::Intron, Pct::whole(100), Pct::whole(100), "T2", "G2", "1");
    let candidates = vec![c1, c2];
    let grouped_by = vec![("G1".to_string(), vec![0]), ("G2".to_string(), vec![1])];
    let result = select_transcript(&candidates, &grouped_by, &rules);
    assert_eq!(result.len(), 2);
}

#[test]
fn test_single_candidate_per_gene() {
    let rules = default_rules();
    let c1 = make_candidate(Area::Tss, Pct::whole(100), Pct::whole(100), "T1", "G1", "1");
    let candidates = vec![c1];
    let grouped_by = group("G1", vec![0]);
    let result = select_transcript(&candidates, &grouped_by, &rules);
    assert_eq!(result.len(), 1);
}

#[test]
fn test_multiple_candidates_different_areas() {
    let rules = default_rules();
    let c1 = make_candidate(Area::Intron, Pct::whole(100), Pct::whole(100), "T1", "G1", "1");
    let c2 = make_candidate(Area::Tss, Pct::whole(100), Pct::whole(100), "T2", "G1", "1");
    let candidates = vec![c1, c2];
    let grouped_by = group("G1", vec![0, 1]);
    let result = select_transcript(&candidates, &grouped_by, &rules);
    assert_eq!(result.len(), 1);
    assert_eq!(result[0].area, Area::Tss);
}

#[test]
fn test_multiple_candidates_same_area_tie() {
    let rules = default_rules();
    let c1 = make_candidate(Area::Tss, Pct::whole(80), Pct::whole(70), "T1", "G1", "1");
    let c2 = make_candidate(Area::Tss, Pct::whole(90), Pct::whole(60), "T2", "G1", "2");
    let candidates = vec![c1, c2];
    let grouped_by = group("G1", vec![0, 1]);
    let result = select_transcript(&candidates, &grouped_by, &rules);
    assert_eq!(result.len(), 1);
    assert!(result[0].transcript.contains("T1"));
    assert!(result[0].transcript.contains("T2"));
}

#[test]
fn test_merged_output_pctg_values() {
    let rules = default_rules();
    let c1 = make_candidate(Area::Tss, Pct::whole(80), Pct::whole(70), "T1", "G1", "1");
    let c2 = make_candidate(Area::Tss, Pct::whole(90), Pct::whole(60), "T2", "G1", "3");
    let candidates = vec![c1, c2];
    let grouped_by = group("G1", vec![0, 1]);
    let result = select_transcript(&candidates, &grouped_by, &rules);
    assert_eq!(result[0].pctg_region, Pct::whole(90));
    assert_eq!(result[0].pctg_area, Pct::whole(70));
}

#[test]
fn test_merged_exon_numbers() {
    let rules = default_rules();
    let c1 = make_candidate(Area::Tss, Pct::whole(100), Pct::whole(100), "T1", "G1", "1");
    let c2 = make_candidate(Area::Tss, Pct::whole(100), Pct::whole(100), "T2", "G1", "3");
    let candidates = vec![c1, c2];
    let grouped_by = group("G1", vec![0, 1]);
    let result = select_transcript(&candidates, &grouped_by, &rules);
    assert!(result[0].exon_number.contains("1"));
    assert!(result[0].exon_number.contains("3"));
}

// ---- types ----

#[test]
fn test_strand_parsing() {
    assert_eq!("+".parse::<Strand>(), Ok(Strand::Positive));
    assert_eq!("-".parse::<Strand>(), Ok(Strand::Negative));
    assert!(".".parse::<Strand>().is_err());
}

#[test]
fn test_strand_as_str() {
    assert_eq!(Strand::Positive.as_str(), "+");
    assert_eq!(Strand::Negative.as_str(), "-");
}

#[test]
fn test_strand_from_str_invalid() {
    assert!(".".parse::<Strand>().is_err());
    assert!("".parse::<Strand>().is_err());
    assert!("positive".parse::<Strand>().is_err());
    assert!("++".parse::<Strand>().is_err());
}

#[test]
fn test_strand_clone_copy() {
    let s1 = Strand::Positive;
    let s2 = s1;
    let s3 = s1;
    assert_eq!(s1, s2);
    assert_eq!(s1, s3);
}

#[test]
fn test_area_parsing() {
    assert_eq!("TSS".parse::<Area>(), Ok(Area::Tss));
    assert_eq!("1st_EXON".parse::<Area>(), Ok(Area::FirstExon));
    assert_eq!("PROMOTER".parse::<Area>(), Ok(Area::Promoter));
    assert!("INVALID".parse::<Area>().is_err());
}

#[test]
fn test_area_as_str() {
    assert_eq!(Area::Tss.as_str(), "TSS");
    assert_eq!(Area::FirstExon.as_str(), "1st_EXON");
    assert_eq!(Area::Promoter.as_str(), "PROMOTER");
    assert_eq!(Area::Tts.as_str(), "TTS");
    assert_eq!(Area::Intron.as_str(), "INTRON");
    assert_eq!(Area::GeneBody.as_str(), "GENE_BODY");
    assert_eq!(Area::Upstream.as_str(), "UPSTREAM");
    assert_eq!(Area::Downstream.as_str(), "DOWNSTREAM");
}

#[test]
fn test_area_from_str_all_valid() {
    assert_eq!("TSS".parse::<Area>().unwrap(), Area::Tss);
    assert_eq!("1st_EXON".parse::<Area>().unwrap(), Area::FirstExon);
    assert_eq!("PROMOTER".parse::<Area>().unwrap(), Area::Promoter);
    assert_eq!("TTS".parse::<Area>().unwrap(), Area::Tts);
    assert_eq!("INTRON".parse::<Area>().unwrap(), Area::Intron);
    assert_eq!("GENE_BODY".parse::<Area>().unwrap(), Area::GeneBody);
    assert_eq!("UPSTREAM".parse::<Area>().unwrap(), Area::Upstream);
    assert_eq!("DOWNSTREAM".parse::<Area>().unwrap(), Area::Downstream);
}

#[test]
fn test_area_from_str_invalid() {
    assert!("tss".parse::<Area>().is_err());
    assert!("INVALID".parse::<Area>().is_err());
    assert!("".parse::<Area>().is_err());
    assert!("FIRST_EXON".parse::<Area>().is_err());
}

#[test]
fn test_area_ordering() {
    assert!(Area::Tss < Area::FirstExon);
    assert!(Area::FirstExon < Area::Promoter);
    let mut areas = [Area::Downstream, Area::Tss, Area::Intron, Area::FirstExon];
    areas.sort();
    assert_eq!(areas[0], Area::Tss);
}

#[test]
fn test_exon_new() {
    let exon = Exon::new(100, 200);
    assert_eq!(exon.start, 100);
    assert_eq!(exon.end, 200);
    assert!(exon.exon_number.is_none());
}

#[test]
fn test_exon_length() {
    let exon = Exon::new(100, 200);
    assert_eq!(exon.length(), 101);

    let exon2 = Exon::new(0, 0);
    assert_eq!(exon2.length(), 1);

    let exon3 = Exon::new(1000, 2000);
    assert_eq!(exon3.length(), 1001);
}

#[test]
fn test_exon_clone() {
    let mut exon = Exon::new(100, 200);
    exon.exon_number = Some("3".to_string());
    let cloned = exon.clone();
    assert_eq!(cloned.start, 100);
    assert_eq!(cloned.end, 200);
    assert_eq!(cloned.exon_number, Some("3".to_string()));
}

#[test]
fn test_transcript_new() {
    let t = Transcript::new("T1".to_string());
    assert_eq!(t.transcript_id, "T1");
    assert!(t.exons.is_empty());
    assert_eq!(t.start, i64::MAX);
    assert_eq!(t.end, 0);
}

#[test]
fn test_transcript_add_exon() {
    let mut t = Transcript::new("T1".to_string());
    t.add_exon(Exon::new(100, 200));
    t.add_exon(Exon::new(300, 400));
    assert_eq!(t.exons.len(), 2);
    assert_eq!(t.exons[0].start, 100);
    assert_eq!(t.exons[1].start, 300);
}

#[test]
fn test_transcript_set_length() {
    let mut t = Transcript::new("T1".to_string());
    t.set_length(50, 500);
    assert_eq!(t.start, 50);
    assert_eq!(t.end, 500);
}

#[test]
fn test_transcript_calculate_size() {
    let mut t = Transcript::new("T1".to_string());
    t.add_exon(Exon::new(500, 600));
    t.add_exon(Exon::new(100, 200));
    t.add_exon(Exon::new(300, 400));
    t.calculate_size();
    assert_eq!(t.start, 100);
    assert_eq!(t.end, 600);
}

#[test]
fn test_transcript_renumber_positive() {
    let mut transcript = Transcript::new("T1".to_string());
    transcript.add_exon(Exon::new(500, 600));
    transcript.add_exon(Exon::new(100, 200));
    transcript.add_exon(Exon::new(300, 400));
    transcript.renumber_exons(Strand::Positive);
    assert_eq!(transcript.exons[0].start, 100);
    assert_eq!(transcript.exons[0].exon_number, Some("1".to_string()));
    assert_eq!(transcript.exons[1].start, 300);
    assert_eq!(transcript.exons[1].exon_number, Some("2".to_string()));
    assert_eq!(transcript.exons[2].start, 500);
    assert_eq!(transcript.exons[2].exon_number, Some("3".to_string()));
}

#[test]
fn test_transcript_renumber_negative() {
    let mut transcript = Transcript::new("T1".to_string());
    transcript.add_exon(Exon::new(100, 200));
    transcript.add_exon(Exon::new(300, 400));
    transcript.renumber_exons(Strand::Negative);
    assert_eq!(transcript.exons[0].start, 100);
    assert_eq!(transcript.exons[0].exon_number, Some("2".to_string()));
    assert_eq!(transcript.exons[1].start, 300);
    assert_eq!(transcript.exons[1].exon_number, Some("1".to_string()));
}

#[test]
fn test_transcript_empty_exons() {
    let mut t = Transcript::new("T1".to_string());
    t.renumber_exons(Strand::Positive);
    assert!(t.exons.is_empty());
    t.calculate_size();
    assert_eq!(t.start, i64::MAX);
    assert_eq!(t.end, 0);
}

#[test]
fn test_gene_new() {
    let g = Gene::new("G1".to_string(), Strand::Positive);
    assert_eq!(g.gene_id, "G1");
    assert_eq!(g.strand, Strand::Positive);
    assert!(g.transcripts.is_empty());
    assert_eq!(g.start, i64::MAX);
    assert_eq!(g.end, 0);
}

#[test]
fn test_gene_add_transcript() {
    let mut g = Gene::new("G1".to_string(), Strand::Positive);
    g.add_transcript(Transcript::new("T1".to_string()));
    g.add_transcript(Transcript::new("T2".to_string()));
    assert_eq!(g.transcripts.len(), 2);
    assert_eq!(g.transcripts[0].transcript_id, "T1");
    assert_eq!(g.transcripts[1].transcript_id, "T2");
}

#[test]
fn test_gene_set_length() {
    let mut g = Gene::new("G1".to_string(), Strand::Positive);
    g.set_length(100, 500);
    assert_eq!(g.start, 100);
    assert_eq!(g.end, 500);
}

#[test]
fn test_gene_calculate_size() {
    let mut g = Gene::new("G1".to_string(), Strand::Positive);
    let mut t1 = Transcript::new("T1".to_string());
    t1.add_exon(Exon::new(100, 200));
    t1.calculate_size();
    let mut t2 = Transcript::new("T2".to_string());
    t2.add_exon(Exon::new(300, 500));
    t2.calculate_size();
    g.add_transcript(t1);
    g.add_transcript(t2);
    g.calculate_size();
    assert_eq!(g.start, 100);
    assert_eq!(g.end, 500);
}

#[test]
fn test_gene_clone() {
    let mut g = Gene::new("G1".to_string(), Strand::Negative);
    g.set_length(100, 500);
    g.add_transcript(Transcript::new("T1".to_string()));
    let cloned = g.clone();
    assert_eq!(cloned.gene_id, "G1");
    assert_eq!(cloned.strand, Strand::Negative);
    assert_eq!(cloned.start, 100);
    assert_eq!(cloned.end, 500);
    assert_eq!(cloned.transcripts.len(), 1);
}

#[test]
fn test_candidate_new() {
    let c = Candidate::new(
        100,
        200,
        Strand::Positive,
        "1".to_string(),
        Area::Tss,
        "T1".to_string(),
        "G1".to_string(),
        50,
        Pct::new(805, 10),
        Pct::new(905, 10),
        500,
    );
    assert_eq!(c.start, 100);
    assert_eq!(c.end, 200);
    assert_eq!(c.strand, Strand::Positive);
    assert_eq!(c.exon_number, "1");
    assert_eq!(c.area, Area::Tss);
    assert_eq!(c.transcript, "T1");
    assert_eq!(c.gene, "G1");
    assert_eq!(c.distance, 50);
    assert_eq!(c.pctg_region, Pct::new(805, 10));
    assert_eq!(c.pctg_area, Pct::new(905, 10));
    assert_eq!(c.tss_distance, 500);
}

#[test]
fn test_candidate_clone() {
    let c = Candidate::new(
        100,
        200,
        Strand::Negative,
        "2".to_string(),
        Area::Intron,
        "T2".to_string(),
        "G2".to_string(),
        100,
        Pct::whole(75),
        Pct::whole(85),
        1000,
    );
    let cloned = c.clone();
    assert_eq!(cloned.start, c.start);
    assert_eq!(cloned.end, c.end);
    assert_eq!(cloned.strand, c.strand);
    assert_eq!(cloned.exon_number, c.exon_number);
    assert_eq!(cloned.area, c.area);
    assert_eq!(cloned.transcript, c.transcript);
    assert_eq!(cloned.gene, c.gene);
    assert_eq!(cloned.distance, c.distance);
    assert_eq!(cloned.pctg_region, c.pctg_region);
    assert_eq!(cloned.pctg_area, c.pctg_area);
}

#[test]
fn test_region_new() {
    let r = Region::new(
        "chr1".to_string(),
        100,
        200,
        vec!["name1".to_string(), "500".to_string()],
    );
    assert_eq!(r.chrom, "chr1");
    assert_eq!(r.start, 100);
    assert_eq!(r.end, 200);
    assert_eq!(r.metadata.len(), 2);
    assert_eq!(r.metadata[0], "name1");
}

#[test]
fn test_region_length() {
    let r = Region::new("chr1".to_string(), 100, 200, vec![]);
    assert_eq!(r.length(), 101);
    let r2 = Region::new("chr1".to_string(), 0, 0, vec![]);
    assert_eq!(r2.length(), 1);
}

#[test]
fn test_region_midpoint() {
    let r = Region::new("chr1".to_string(), 100, 200, vec![]);
    assert_eq!(r.midpoint(), 150);
    let r2 = Region::new("chr1".to_string(), 100, 201, vec![]);
    assert_eq!(r2.midpoint(), 150);
    let r3 = Region::new("chr1".to_string(), 0, 1, vec![]);
    assert_eq!(r3.midpoint(), 0);
}

#[test]
fn test_region_midpoint_integer_division() {
    let region = Region::new("chr1".to_string(), 100, 201, vec![]);
    assert_eq!(region.midpoint(), 150);
}

#[test]
fn test_region_methods() {
    let region = Region::new("chr1".to_string(), 100, 200, vec!["test".to_string()]);
    assert_eq!(region.length(), 101);
    assert_eq!(region.midpoint(), 150);
    assert_eq!(region.id(), "chr1_100_200");
}

#[test]
fn test_region_id() {
    let r = Region::new("chr1".to_string(), 100, 200, vec![]);
    assert_eq!(r.id(), "chr1_100_200");
    let r2 = Region::new("chrX".to_string(), 0, 1000000, vec![]);
    assert_eq!(r2.id(), "chrX_0_1000000");
}

#[test]
fn test_region_clone() {
    let r = Region::new("chr1".to_string(), 100, 200, vec!["meta".to_string()]);
    let cloned = r.clone();
    assert_eq!(cloned.chrom, "chr1");
    assert_eq!(cloned.start, 100);
    assert_eq!(cloned.end, 200);
    assert_eq!(cloned.metadata, vec!["meta"]);
}

#[test]
fn test_report_level_from_str() {
    assert_eq!("exon".parse::<ReportLevel>().unwrap(), ReportLevel::Exon);
    assert_eq!("transcript".parse::<ReportLevel>().unwrap(), ReportLevel::Transcript);
    assert_eq!("gene".parse::<ReportLevel>().unwrap(), ReportLevel::Gene);
}

#[test]
fn test_report_level_case_insensitive() {
    assert_eq!("EXON".parse::<ReportLevel>().unwrap(), ReportLevel::Exon);
    assert_eq!("Exon".parse::<ReportLevel>().unwrap(), ReportLevel::Exon);
    assert_eq!("TRANSCRIPT".parse::<ReportLevel>().unwrap(), ReportLevel::Transcript);
    assert_eq!("GENE".parse::<ReportLevel>().unwrap(), ReportLevel::Gene);
}

#[test]
fn test_report_level_invalid() {
    assert!("invalid".parse::<ReportLevel>().is_err());
    assert!("".parse::<ReportLevel>().is_err());
    assert!("exons".parse::<ReportLevel>().is_err());
}

// ---- configuration ----

#[test]
fn test_default_config() {
    let config = Config::default();
    assert_eq!(config.rules.len(), 8);
    assert_eq!(config.perc_area, Pct::whole(90));
    assert_eq!(config.perc_region, Pct::whole(50));
    assert_eq!(config.tss, 200);
    assert_eq!(config.tts, 0);
    assert_eq!(config.promoter, 1300);
    assert_eq!(config.distance, 10000);
    assert_eq!(config.level, ReportLevel::Exon);
    assert_eq!(config.gene_id_tag, "gene_id");
    assert_eq!(config.transcript_id_tag, "transcript_id");
}

#[test]
fn test_parse_rules_valid() {
    let mut config = Config::new();
    let result = config.parse_rules("DOWNSTREAM,UPSTREAM,GENE_BODY,INTRON,TTS,PROMOTER,1st_EXON,TSS");
    assert!(result);
    assert_eq!(config.rules.len(), 8);
    assert_eq!(config.rules[0], Area::Downstream);
    assert_eq!(config.rules[7], Area::Tss);
}

#[test]
fn test_parse_rules_missing_tags() {
    let mut config = Config::new();
    assert!(!config.parse_rules("TSS,1st_EXON,PROMOTER"));
}

#[test]
fn test_parse_rules_duplicate_tags() {
    let mut config = Config::new();
    assert!(!config.parse_rules("TSS,TSS,TSS,TSS,TSS,TSS,TSS,TSS"));
}

#[test]
fn test_parse_rules_case_sensitive() {
    let mut config = Config::new();
    assert!(!config.parse_rules("tss,1st_exon,promoter,tts,intron,gene_body,upstream,downstream"));
}

#[test]
fn test_parse_rules_empty() {
    let mut config = Config::new();
    assert!(!config.parse_rules(""));
}

#[test]
fn test_parse_rules_whitespace() {
    let mut config = Config::new();
    assert!(!config.parse_rules("TSS, 1st_EXON, PROMOTER, TTS, INTRON, GENE_BODY, UPSTREAM, DOWNSTREAM"));
}

#[test]
fn test_set_distance_kb() {
    let mut config = Config::new();
    config.set_distance_kb(20);
    assert_eq!(config.distance, 20000);
    config.set_distance_kb(-1);
    assert_eq!(config.distance, 20000);
}

#[test]
fn test_config_set_distance_kb_zero() {
    let mut config = Config::new();
    config.set_distance_kb(0);
    assert_eq!(config.distance, 0);
}

#[test]
fn test_config_new_equals_default() {
    let c1 = Config::new();
    let c2 = Config::default();
    assert_eq!(c1.rules, c2.rules);
    assert_eq!(c1.perc_area, c2.perc_area);
    assert_eq!(c1.perc_region, c2.perc_region);
    assert_eq!(c1.tss, c2.tss);
    assert_eq!(c1.tts, c2.tts);
    assert_eq!(c1.promoter, c2.promoter);
    assert_eq!(c1.distance, c2.distance);
}

#[test]
fn test_config_max_lookback_distance() {
    let mut config = Config::new();
    assert_eq!(config.max_lookback_distance(), 10000);
    config.promoter = 15000;
    assert_eq!(config.max_lookback_distance(), 15000);
    config.promoter = 1300;
    config.tss = 20000;
    assert_eq!(config.max_lookback_distance(), 20000);
    config.tss = 200;
    config.tts = 25000;
    assert_eq!(config.max_lookback_distance(), 25000);
}

#[test]
fn test_config_clone() {
    let mut config = Config::new();
    config.tss = 500;
    config.distance = 20000;
    let cloned = config.clone();
    assert_eq!(cloned.tss, 500);
    assert_eq!(cloned.distance, 20000);
}

// ---- classifier ----

#[test]
fn test_calculate_intron_number() {
    assert_eq!(calculate_intron_number(0, 3, Strand::Positive), 1);
    assert_eq!(calculate_intron_number(1, 3, Strand::Positive), 2);
    assert_eq!(calculate_intron_number(0, 3, Strand::Negative), 2);
    assert_eq!(calculate_intron_number(1, 3, Strand::Negative), 1);
}

#[test]
fn test_find_search_start_index_empty() {
    let genes: Vec<Gene> = vec![];
    assert_eq!(find_search_start_index(&genes, 100), 0);
}

#[test]
fn test_find_search_start_index_all_before() {
    let genes = vec![
        make_test_gene("G1", 100, 200, Strand::Positive, vec![(100, 200)]),
        make_test_gene("G2", 300, 400, Strand::Positive, vec![(300, 400)]),
    ];
    assert_eq!(find_search_start_index(&genes, 500), 2);
}

#[test]
fn test_find_search_start_index_all_after() {
    let genes = vec![
        make_test_gene("G1", 100, 200, Strand::Positive, vec![(100, 200)]),
        make_test_gene("G2", 300, 400, Strand::Positive, vec![(300, 400)]),
    ];
    assert_eq!(find_search_start_index(&genes, 50), 0);
}

#[test]
fn test_find_search_start_index_middle() {
    let genes = vec![
        make_test_gene("G1", 100, 200, Strand::Positive, vec![(100, 200)]),
        make_test_gene("G2", 300, 400, Strand::Positive, vec![(300, 400)]),
        make_test_gene("G3", 500, 600, Strand::Positive, vec![(500, 600)]),
    ];
    assert_eq!(find_search_start_index(&genes, 250), 1);
}

#[test]
fn test_match_region_to_genes_no_overlap() {
    let config = Config::default();
    let region = Region::new("chr1".into(), 10, 20, vec![]);
    let genes = vec![make_test_gene("G1", 50000, 60000, Strand::Positive, vec![(50000, 60000)])];
    let candidates = match_region_to_genes(&region, &genes, &config, 0);
    assert!(candidates.is_empty());
}

#[test]
fn test_match_region_to_genes_exact_overlap() {
    let config = Config::default();
    let region = Region::new("chr1".into(), 1050, 1150, vec![]);
    let genes = vec![make_test_gene("G1", 1000, 2000, Strand::Positive, vec![(1000, 1200)])];
    let candidates = match_region_to_genes(&region, &genes, &config, 0);
    assert!(!candidates.is_empty());
    assert!(candidates.iter().any(|c| c.area == Area::FirstExon));
}

#[test]
fn test_match_region_to_genes_intron_overlap() {
    // region [1250,1350] falls in the intron between exons [1000,1200]
    // and [1400,1600]
    let config = Config::default();
    let region = Region::new("chr1".into(), 1250, 1350, vec![]);
    let genes = vec![make_test_gene(
        "G1",
        1000,
        2000,
        Strand::Positive,
        vec![(1000, 1200), (1400, 1600)],
    )];
    let candidates = match_region_to_genes(&region, &genes, &config, 0);
    assert!(!candidates.is_empty());
    assert!(candidates.iter().any(|c| c.area == Area::Intron), "Should find INTRON overlap");
}

#[test]
fn test_match_region_to_genes_negative_strand() {
    let config = Config::default();
    let region = Region::new("chr1".into(), 1050, 1150, vec![]);
    let genes = vec![make_test_gene(
        "G1",
        1000,
        2000,
        Strand::Negative,
        vec![(1000, 1200), (1500, 1700)],
    )];
    let candidates = match_region_to_genes(&region, &genes, &config, 0);
    assert!(!candidates.is_empty());
}

#[test]
fn test_match_region_to_genes_upstream_proximity() {
    let config = Config::default();
    let region = Region::new("chr1".into(), 800, 900, vec![]);
    let genes = vec![make_test_gene("G1", 1000, 2000, Strand::Positive, vec![(1000, 1200)])];
    let candidates = match_region_to_genes(&region, &genes, &config, 0);
    assert!(!candidates.is_empty());
    assert!(candidates
        .iter()
        .any(|c| c.area == Area::Upstream || c.area == Area::Tss || c.area == Area::Promoter));
}

#[test]
fn test_match_region_to_genes_downstream_proximity() {
    let config = Config::default();
    let region = Region::new("chr1".into(), 2100, 2200, vec![]);
    let genes = vec![make_test_gene(
        "G1",
        1000,
        2000,
        Strand::Positive,
        vec![(1000, 1200), (1800, 2000)],
    )];
    let candidates = match_region_to_genes(&region, &genes, &config, 0);
    assert!(!candidates.is_empty());
    assert!(candidates.iter().any(|c| c.area == Area::Downstream || c.area == Area::Tts));
}

#[test]
fn test_match_region_to_genes_multiple_genes() {
    let config = Config::default();
    let region = Region::new("chr1".into(), 1900, 2100, vec![]);
    let genes = vec![
        make_test_gene("G1", 1000, 2000, Strand::Positive, vec![(1800, 2000)]),
        make_test_gene("G2", 2000, 3000, Strand::Positive, vec![(2000, 2200)]),
    ];
    let candidates = match_region_to_genes(&region, &genes, &config, 0);
    assert!(candidates.iter().any(|c| c.gene == "G1"));
    assert!(candidates.iter().any(|c| c.gene == "G2"));
}

#[test]
fn test_match_region_to_genes_gene_body() {
    let config = Config::default();
    let region = Region::new("chr1".into(), 2500, 2600, vec![]);
    let genes = vec![make_test_gene(
        "G1",
        1000,
        5000,
        Strand::Positive,
        vec![(1000, 1200), (4800, 5000)],
    )];
    let candidates = match_region_to_genes(&region, &genes, &config, 0);
    assert!(!candidates.is_empty());
    assert!(candidates.iter().any(|c| c.area == Area::GeneBody || c.area == Area::Intron));
}

#[test]
fn test_no_duplicate_downstream_case2() {
    // region [100,200], single-exon gene [51,150], Positive strand:
    // exactly one Downstream candidate for that gene
    let config = Config::default();
    let region = Region::new("chr1".into(), 100, 200, vec!["region1".into()]);
    let genes = vec![make_test_gene("GENE001", 51, 150, Strand::Positive, vec![(51, 150)])];
    let candidates = match_region_to_genes(&region, &genes, &config, 0);
    let downstream_count = candidates
        .iter()
        .filter(|c| c.gene == "GENE001" && c.area == Area::Downstream)
        .count();
    assert_eq!(downstream_count, 1);
}

#[test]
fn test_no_duplicate_downstream_case3() {
    let config = Config::default();
    let region = Region::new("chr1".into(), 1000, 1300, vec!["region2".into()]);
    let genes = vec![make_test_gene("GENE002", 1050, 1200, Strand::Positive, vec![(1050, 1200)])];
    let candidates = match_region_to_genes(&region, &genes, &config, 0);
    let downstream_count = candidates
        .iter()
        .filter(|c| c.gene == "GENE002" && c.area == Area::Downstream)
        .count();
    assert_eq!(downstream_count, 1);
}

#[test]
fn test_proximity_candidate_preserved() {
    let config = Config::default();
    let region = Region::new("chr1".into(), 5000, 5100, vec!["region3".into()]);
    let genes = vec![
        make_test_gene("GENE003", 4700, 4900, Strand::Positive, vec![(4700, 4750), (4800, 4900)]),
        make_test_gene("GENE004", 4850, 5200, Strand::Positive, vec![(4850, 4900), (4950, 5050)]),
    ];
    let candidates = match_region_to_genes(&region, &genes, &config, 0);
    assert!(candidates.iter().any(|c| c.gene == "GENE003" && c.area == Area::Downstream));
    assert!(candidates.iter().any(|c| c.gene == "GENE004"));
}

#[test]
fn test_no_duplicate_lines_overall() {
    let config = Config::default();
    let regions = vec![
        Region::new("chr1".into(), 100, 200, vec!["region1".into()]),
        Region::new("chr1".into(), 1000, 1300, vec!["region2".into()]),
        Region::new("chr1".into(), 5000, 5100, vec!["region3".into()]),
    ];
    let genes = vec![
        make_test_gene("GENE001", 51, 150, Strand::Positive, vec![(51, 150)]),
        make_test_gene("GENE002", 1050, 1200, Strand::Positive, vec![(1050, 1200)]),
        make_test_gene("GENE003", 4700, 4900, Strand::Positive, vec![(4700, 4750), (4800, 4900)]),
        make_test_gene("GENE004", 4850, 5200, Strand::Positive, vec![(4850, 4900), (4950, 5050)]),
    ];
    for region in &regions {
        let candidates = match_region_to_genes(region, &genes, &config, 0);
        let mut keys: Vec<String> = candidates
            .iter()
            .map(|c| format!("{}_{}_{}", c.gene, c.transcript, c.area.as_str()))
            .collect();
        let total = keys.len();
        keys.sort();
        keys.dedup();
        assert_eq!(total, keys.len(), "Duplicate candidates found for region {}", region.id());
    }
}

#[test]
fn test_process_candidates_empty() {
    let config = Config::default();
    let candidates: Vec<Candidate> = vec![];
    let result = process_candidates_for_output(candidates, &config);
    assert!(result.is_empty());
}

#[test]
fn test_process_candidates_exon_level() {
    let mut config = Config::default();
    config.level = ReportLevel::Exon;
    let c1 = make_candidate(Area::Tss, Pct::whole(100), Pct::whole(100), "T1", "G1", "1");
    let c2 = make_candidate(Area::Intron, Pct::whole(80), Pct::whole(80), "T1", "G1", "2");
    let candidates = vec![c1, c2];
    let result = process_candidates_for_output(candidates, &config);
    assert_eq!(result.len(), 2);
}

#[test]
fn test_process_candidates_transcript_level() {
    let mut config = Config::default();
    config.level = ReportLevel::Transcript;
    let c1 = make_candidate(Area::Tss, Pct::whole(100), Pct::whole(100), "T1", "G1", "1");
    let c2 = make_candidate(Area::Intron, Pct::whole(80), Pct::whole(80), "T1", "G1", "2");
    let candidates = vec![c1, c2];
    let result = process_candidates_for_output(candidates, &config);
    assert_eq!(result.len(), 1);
    assert_eq!(result[0].area, Area::Tss);
}

#[test]
fn test_process_candidates_gene_level() {
    let mut config = Config::default();
    config.level = ReportLevel::Gene;
    let c1 = make_candidate(Area::Tss, Pct::whole(100), Pct::whole(100), "T1", "G1", "1");
    let c2 = make_candidate(Area::Tss, Pct::whole(90), Pct::whole(90), "T2", "G1", "2");
    let candidates = vec![c1, c2];
    let result = process_candidates_for_output(candidates, &config);
    assert_eq!(result.len(), 1);
    assert!(result[0].transcript.contains("T1") || result[0].transcript.contains("T2"));
}

#[test]
fn test_match_regions_to_genes_basic() {
    let config = Config::default();
    let regions = vec![
        Region::new("chr1".into(), 1050, 1150, vec![]),
        Region::new("chr1".into(), 1500, 1600, vec![]),
    ];
    let genes = vec![make_test_gene(
        "G1",
        1000,
        2000,
        Strand::Positive,
        vec![(1000, 1200), (1500, 1700)],
    )];
    let results = match_regions_to_genes(&regions, &genes, &config, 0);
    assert_eq!(results.len(), 2);
    assert_eq!(results[0].0.start, 1050);
    assert!(!results[0].1.is_empty());
    assert_eq!(results[1].0.start, 1500);
    assert!(!results[1].1.is_empty());
}

#[test]
fn test_aggregation_conservation_sums() {
    // two intron fragments of one transcript merge into one candidate whose
    // coverage is the summed overlap over the region length and over the
    // summed area lengths
    let c1 = make_candidate(Area::Intron, Pct::whole(100), Pct::whole(100), "T1", "G1", "1");
    let c2 = make_candidate(Area::Intron, Pct::whole(100), Pct::whole(100), "T1", "G1", "2");
    let groups = vec![AggGroup {
        key: "G1_T1".to_string(),
        entries: vec![
            AggEntry { candidate: c1, area_len: 100, overlap: 40 },
            AggEntry { candidate: c2, area_len: 300, overlap: 60 },
        ],
    }];
    let merged = aggregate_entries(&groups, 200);
    assert_eq!(merged.len(), 1);
    assert_eq!(merged[0].pctg_region, Pct::new(10000, 200)); // (40+60)/200
    assert_eq!(merged[0].pctg_area, Pct::new(10000, 400)); // (40+60)/(100+300)
    assert_eq!(merged[0].exon_number, "1,2");
}

// ---- rule-engine idempotence on single winners ----

#[test]
fn test_apply_rules_idempotent_on_winners() {
    let rules = default_rules();
    let c1 = make_candidate(Area::Intron, Pct::whole(100), Pct::whole(100), "T1", "G1", "1");
    let c2 = make_candidate(Area::Tss, Pct::whole(100), Pct::whole(100), "T1", "G1", "1");
    let candidates = vec![c1, c2];
    let grouped_by = group("T1", vec![0, 1]);
    let first = apply_rules(&candidates, &grouped_by, Pct::whole(50), Pct::whole(90), &rules);
    assert_eq!(first.len(), 1);
    // re-run on the single winner, regrouped by its transcript
    let regrouped = group(&first[0].transcript.clone(), vec![0]);
    let second = apply_rules(&first, &regrouped, Pct::whole(50), Pct::whole(90), &rules);
    assert_eq!(second.len(), 1);
    assert_eq!(second[0].area, first[0].area);
    assert_eq!(second[0].transcript, first[0].transcript);
    assert_eq!(second[0].pctg_region, first[0].pctg_region);
}

// ---- output formatting ----

#[test]
fn test_format_pct_values() {
    assert_eq!(format_pct(&Pct::whole(100)), "100.00");
    assert_eq!(format_pct(&Pct::not_applicable()), "-1.00");
    assert_eq!(format_pct(&Pct::new(33333333, 1000000)), "33.33");
    assert_eq!(format_pct(&Pct::new(66666666, 1000000)), "66.67");
    assert_eq!(format_pct(&Pct::new(0, 1)), "0.00");
}

#[test]
fn test_format_output_line() {
    let region = Region::new("chr1".to_string(), 100, 200, vec!["name1".to_string()]);
    let candidate = Candidate::new(
        100,
        200,
        Strand::Positive,
        "1".to_string(),
        Area::Tss,
        "T1".to_string(),
        "G1".to_string(),
        50,
        Pct::new(80123, 1000),
        Pct::new(90456, 1000),
        500,
    );
    let line = format_output_line(&region, &candidate);
    assert!(line.contains("chr1_100_200"));
    assert!(line.contains("150"));
    assert!(line.contains("G1"));
    assert!(line.contains("T1"));
    assert!(line.contains("TSS"));
    assert!(line.contains("80.12"));
    assert!(line.contains("90.46"));
    assert!(line.contains("name1"));
}

#[test]
fn test_format_output_line_basic() {
    let region = Region::new("chr1".to_string(), 100, 200, vec![]);
    let candidate = Candidate::new(
        100,
        200,
        Strand::Positive,
        "1".to_string(),
        Area::Tss,
        "T1".to_string(),
        "G1".to_string(),
        50,
        Pct::whole(80),
        Pct::whole(90),
        500,
    );
    let line = format_output_line(&region, &candidate);
    assert!(line.contains("chr1_100_200"));
    assert!(line.contains("150"));
    assert!(line.contains("80.00"));
    assert!(line.contains("90.00"));
}

#[test]
fn test_format_output_line_with_metadata() {
    let region = Region::new(
        "chr1".to_string(),
        100,
        200,
        vec!["peak1".to_string(), "500".to_string(), "+".to_string()],
    );
    let candidate = Candidate::new(
        100,
        200,
        Strand::Positive,
        "1".to_string(),
        Area::Intron,
        "T1".to_string(),
        "G1".to_string(),
        0,
        Pct::whole(100),
        Pct::whole(100),
        0,
    );
    let line = format_output_line(&region, &candidate);
    assert!(line.contains("peak1"));
    assert!(line.contains("500"));
    assert!(line.contains("+"));
}

#[test]
fn test_format_output_line_empty_metadata() {
    let region = Region::new("chr1".to_string(), 100, 200, vec![]);
    let candidate = Candidate::new(
        100,
        200,
        Strand::Negative,
        "2".to_string(),
        Area::Downstream,
        "T2".to_string(),
        "G2".to_string(),
        1000,
        Pct::whole(50),
        Pct::not_applicable(),
        2000,
    );
    let line = format_output_line(&region, &candidate);
    assert!(!line.ends_with('\t'));
    assert!(line.contains("-1.00"));
    assert!(line.contains("DOWNSTREAM"));
}

#[test]
fn test_format_output_line_all_areas() {
    let region = Region::new("chr1".to_string(), 100, 200, vec![]);
    let areas = vec![
        Area::Tss,
        Area::FirstExon,
        Area::Promoter,
        Area::Tts,
        Area::Intron,
        Area::GeneBody,
        Area::Upstream,
        Area::Downstream,
    ];
    for area in areas {
        let candidate = Candidate::new(
            100,
            200,
            Strand::Positive,
            "1".to_string(),
            area,
            "T1".to_string(),
            "G1".to_string(),
            0,
            Pct::whole(100),
            Pct::whole(100),
            0,
        );
        let line = format_output_line(&region, &candidate);
        assert!(line.contains(area.as_str()), "Line should contain {}", area.as_str());
    }
}

#[test]
fn test_format_output_line_precision() {
    let region = Region::new("chr1".to_string(), 100, 200, vec![]);
    let candidate = Candidate::new(
        100,
        200,
        Strand::Positive,
        "1".to_string(),
        Area::Tss,
        "T1".to_string(),
        "G1".to_string(),
        0,
        Pct::new(33333333, 1000000),
        Pct::new(66666666, 1000000),
        0,
    );
    let line = format_output_line(&region, &candidate);
    assert!(line.contains("33.33"));
    assert!(line.contains("66.67"));
}

#[test]
fn test_format_output_line_zero_values() {
    let region = Region::new("chr1".to_string(), 0, 0, vec![]);
    let candidate = Candidate::new(
        0,
        0,
        Strand::Positive,
        "0".to_string(),
        Area::Tss,
        "T0".to_string(),
        "G0".to_string(),
        0,
        Pct::whole(0),
        Pct::whole(0),
        0,
    );
    let line = format_output_line(&region, &candidate);
    assert!(line.contains("chr1_0_0"));
    assert!(line.contains("0.00"));
}

#[test]
fn test_format_output_line_large_values() {
    let region = Region::new("chr1".to_string(), 100000000, 200000000, vec![]);
    let candidate = Candidate::new(
        100000000,
        200000000,
        Strand::Negative,
        "999".to_string(),
        Area::GeneBody,
        "TRANSCRIPT_VERY_LONG_NAME".to_string(),
        "GENE_VERY_LONG_NAME".to_string(),
        1000000,
        Pct::whole(100),
        Pct::whole(100),
        5000000,
    );
    let line = format_output_line(&region, &candidate);
    assert!(line.contains("chr1_100000000_200000000"));
    assert!(line.contains("150000000"));
    assert!(line.contains("TRANSCRIPT_VERY_LONG_NAME"));
    assert!(line.contains("GENE_VERY_LONG_NAME"));
    assert!(line.contains("1000000"));
    assert!(line.contains("5000000"));
}

#[test]
fn test_write_header() {
    let mut output = String::new();
    write_header(&mut output, 0);
    assert!(output.starts_with("Region\tMidpoint\tGene"));
    assert!(!output.contains("name"));

    let mut output = String::new();
    write_header(&mut output, 3);
    assert!(output.contains("name\tscore\tstrand"));
}

#[test]
fn test_write_header_no_meta() {
    let mut output = String::new();
    write_header(&mut output, 0);
    assert!(output.starts_with("Region\tMidpoint\tGene"));
    assert!(output.contains("Transcript"));
    assert!(output.contains("Exon/Intron"));
    assert!(output.contains("Area"));
    assert!(output.contains("Distance"));
    assert!(output.contains("TSSDistance"));
    assert!(output.contains("PercRegion"));
    assert!(output.contains("PercArea"));
    assert!(!output.contains("name"));
}

#[test]
fn test_write_header_with_meta() {
    let mut output = String::new();
    write_header(&mut output, 6);
    assert!(output.contains("name"));
    assert!(output.contains("score"));
    assert!(output.contains("strand"));
    assert!(output.contains("thickStart"));
    assert!(output.contains("thickEnd"));
    assert!(output.contains("itemRgb"));
    assert!(!output.contains("blockCount"));
}

#[test]
fn test_write_header_max_meta() {
    let mut output = String::new();
    write_header(&mut output, 9);
    assert!(output.contains("blockCount"));
    assert!(output.contains("blockSizes"));
    assert!(output.contains("blockStarts"));
}

#[test]
fn test_get_bed_headers() {
    assert_eq!(get_bed_headers(0), Vec::<&str>::new());
    assert_eq!(get_bed_headers(3), vec!["name", "score", "strand"]);
    assert_eq!(
        get_bed_headers(9),
        vec![
            "name",
            "score",
            "strand",
            "thickStart",
            "thickEnd",
            "itemRgb",
            "blockCount",
            "blockSizes",
            "blockStarts"
        ]
    );
}

// ---- mode equivalence of the scheduler ----

#[test]
fn test_mode_equivalence_shuffled_order() {
    let chunks: Vec<Vec<String>> = vec![
        vec!["a1".to_string(), "a2".to_string()],
        vec!["b1".to_string()],
        vec![],
        vec!["d1".to_string(), "d2".to_string(), "d3".to_string()],
        vec!["e1".to_string()],
    ];
    let sequential = run_chunks_in_order(&chunks);
    let orders: Vec<Vec<usize>> = vec![
        vec![0, 1, 2, 3, 4],
        vec![4, 3, 2, 1, 0],
        vec![2, 0, 4, 1, 3],
        vec![1, 3, 0, 4, 2],
    ];
    for order in orders {
        let reassembled = run_chunks_reassembled(&chunks, &order);
        assert_eq!(reassembled, sequential, "order {:?} must reproduce the sequential output", order);
    }
}

// ---- annotation attribute extraction ----

#[test]
fn test_extract_attribute() {
    let attrs = r#"gene_id "ENSG00000279493.1"; transcript_id "ENST00000624081.1"; gene_type "artifact";"#;
    assert_eq!(
        rgmatch::parser::extract_attribute(attrs, "gene_id"),
        Some("ENSG00000279493.1".to_string())
    );
    assert_eq!(
        rgmatch::parser::extract_attribute(attrs, "transcript_id"),
        Some("ENST00000624081.1".to_string())
    );
    assert_eq!(
        rgmatch::parser::extract_attribute(attrs, "gene_type"),
        Some("artifact".to_string())
    );
    assert_eq!(rgmatch::parser::extract_attribute(attrs, "nonexistent"), None);
}

#[test]
fn test_parse_rules_extra_or_duplicate_tokens_rejected() {
    // a ninth segment rejects the whole string, even with all 8 tags present
    let mut config = Config::new();
    assert!(!config.parse_rules("TSS,1st_EXON,PROMOTER,TTS,INTRON,GENE_BODY,UPSTREAM,DOWNSTREAM,TSS"));
    assert_eq!(config.rules, default_rules());
    assert!(!config.parse_rules("TSS,1st_EXON,PROMOTER,TTS,INTRON,GENE_BODY,UPSTREAM,DOWNSTREAM,JUNK"));
    assert_eq!(config.rules, default_rules());
}

#[test]
fn test_advance_past_ended_cursor() {
    let genes = vec![
        make_test_gene("G1", 100, 200, Strand::Positive, vec![(100, 200)]),
        make_test_gene("G2", 300, 400, Strand::Positive, vec![(300, 400)]),
        make_test_gene("G3", 500, 600, Strand::Positive, vec![(500, 600)]),
    ];
    assert_eq!(rgmatch::matcher::overlap::advance_past_ended(&genes, 0, 450), 2);
    assert_eq!(rgmatch::matcher::overlap::advance_past_ended(&genes, 1, 350), 1);
    assert_eq!(rgmatch::matcher::overlap::advance_past_ended(&genes, 0, 10000), 3);
}
