//! End-to-end scenarios for the Stockholm-to-FASTA splitter core.

use stk2fasta::machine::{Config, OutFile, RunError, RunOutput, process_input};
use stk2fasta::filter::IdFilter;

fn config(strip_gaps: bool, patterns: &[&str]) -> Config {
    let patterns: Vec<String> = patterns.iter().map(|p| p.to_string()).collect();
    Config { strip_gaps, filter: IdFilter::new(patterns).expect("patterns must compile") }
}

fn run(input: &str, strip_gaps: bool, patterns: &[&str]) -> Result<RunOutput, RunError> {
    process_input(input.as_bytes(), &config(strip_gaps, patterns))
}

fn file_names(out: &RunOutput) -> Vec<String> {
    out.files.iter().map(|f| String::from_utf8(f.id.clone()).unwrap()).collect()
}

fn file_content(out: &RunOutput, id: &str) -> String {
    let found: Vec<&OutFile> =
        out.files.iter().filter(|f| f.id == id.as_bytes().to_vec()).collect();
    assert_eq!(found.len(), 1, "exactly one file expected for {id}");
    String::from_utf8(found[0].content.clone()).unwrap()
}

const TWO_RECORDS: &str = "#=GF ID Rec1\nseqA AC.GT\n//\n#=GF ID Rec2\nseqB AC--GT\n//\n";

#[test]
fn two_records_gaps_kept() {
    let out = run(TWO_RECORDS, false, &[]).unwrap();
    assert_eq!(file_names(&out), vec!["Rec1", "Rec2"]);
    assert_eq!(file_content(&out, "Rec1"), ">seqA\nAC-GT\n");
    assert_eq!(file_content(&out, "Rec2"), ">seqB\nAC--GT\n");
    assert_eq!(out.num_inspected, 2);
    assert_eq!(out.num_taken, 2);
}

#[test]
fn two_records_gaps_stripped() {
    let out = run(TWO_RECORDS, true, &[]).unwrap();
    assert_eq!(file_names(&out), vec!["Rec1", "Rec2"]);
    assert_eq!(file_content(&out, "Rec1"), ">seqA\nACGT\n");
    assert_eq!(file_content(&out, "Rec2"), ">seqB\nACGT\n");
}

#[test]
fn filter_is_case_insensitive_or() {
    let out = run(TWO_RECORDS, false, &["rec1"]).unwrap();
    assert_eq!(file_names(&out), vec!["Rec1"]);
    assert_eq!(out.num_taken, 1);
    assert_eq!(out.num_inspected, 2);

    let both = run(TWO_RECORDS, false, &["rec1", "REC2"]).unwrap();
    assert_eq!(file_names(&both), vec!["Rec1", "Rec2"]);
    assert_eq!(both.num_taken, 2);
}

#[test]
fn filter_with_no_match_creates_nothing() {
    let out = run(TWO_RECORDS, false, &["zebra"]).unwrap();
    assert_eq!(out.files.len(), 0);
    assert_eq!(out.num_taken, 0);
    assert_eq!(out.num_inspected, 2);
}

#[test]
fn dies_missing_id() {
    let input = "seqA AC.GT\n//\n";
    let err = run(input, false, &[]).unwrap_err();
    assert!(matches!(err, RunError::SequenceBeforeId { line: 0 }));
}

#[test]
fn sequence_after_delimiter_is_dropped() {
    let input = "#=GF ID Rec1\nseqA ACGT\n//\nseqB ACGT\n";
    let out = run(input, false, &[]).unwrap();
    assert_eq!(file_names(&out), vec!["Rec1"]);
    assert_eq!(file_content(&out, "Rec1"), ">seqA\nACGT\n");
}

#[test]
fn later_sequence_line_cannot_abort_once_an_id_was_seen() {
    let input = "#=GF ID Rec1\n//\nstray ACGT\n";
    let out = run(input, false, &["nomatch"]).unwrap();
    assert_eq!(out.files.len(), 0);
    assert_eq!(out.num_inspected, 1);
    assert_eq!(out.num_taken, 0);
}

#[test]
fn rejected_record_does_not_open_a_target() {
    let input = "#=GF ID Rec1\nseqA ACGT\n//\n#=GF ID Other\nseqB ACGT\n//\n";
    let out = run(input, false, &["rec1"]).unwrap();
    assert_eq!(file_names(&out), vec!["Rec1"]);
    assert_eq!(file_content(&out, "Rec1"), ">seqA\nACGT\n");
}

#[test]
fn entries_keep_input_order() {
    let input = "#=GF ID Rec1\nzeta ACGT\nalpha GGGG\nmid TTTT\n//\n";
    let out = run(input, false, &[]).unwrap();
    assert_eq!(file_content(&out, "Rec1"), ">zeta\nACGT\n>alpha\nGGGG\n>mid\nTTTT\n");
}

#[test]
fn comments_and_blank_lines_are_ignored() {
    let input = "# STOCKHOLM 1.0\n\n#=GF ID Rec1\n# a comment\nseqA ACGT\n\n//\n";
    let out = run(input, false, &[]).unwrap();
    assert_eq!(file_names(&out), vec!["Rec1"]);
    assert_eq!(file_content(&out, "Rec1"), ">seqA\nACGT\n");
    assert_eq!(out.num_inspected, 1);
    assert_eq!(out.num_taken, 1);
}

#[test]
fn second_id_without_delimiter_opens_a_new_record() {
    let input = "#=GF ID Rec1\nseqA ACGT\n#=GF ID Rec2\nseqB TTTT\n//\n";
    let out = run(input, false, &[]).unwrap();
    assert_eq!(file_names(&out), vec!["Rec1", "Rec2"]);
    assert_eq!(file_content(&out, "Rec1"), ">seqA\nACGT\n");
    assert_eq!(file_content(&out, "Rec2"), ">seqB\nTTTT\n");
    assert_eq!(out.num_inspected, 1);
    assert_eq!(out.num_taken, 2);
}

#[test]
fn repeated_identifier_yields_a_later_entry_that_wins() {
    let input = "#=GF ID Rec1\nseqA ACGT\n//\n#=GF ID Rec1\nseqB TTTT\n//\n";
    let out = run(input, false, &[]).unwrap();
    assert_eq!(file_names(&out), vec!["Rec1", "Rec1"]);
    assert_eq!(String::from_utf8(out.files[0].content.clone()).unwrap(), ">seqA\nACGT\n");
    assert_eq!(String::from_utf8(out.files[1].content.clone()).unwrap(), ">seqB\nTTTT\n");
}

#[test]
fn running_twice_gives_identical_output() {
    let once = run(TWO_RECORDS, true, &["rec"]).unwrap();
    let again = run(TWO_RECORDS, true, &["rec"]).unwrap();
    assert_eq!(once.files.len(), again.files.len());
    for (a, b) in once.files.iter().zip(again.files.iter()) {
        assert_eq!(a.id, b.id);
        assert_eq!(a.content, b.content);
    }
    assert_eq!(once.num_inspected, again.num_inspected);
    assert_eq!(once.num_taken, again.num_taken);
}

#[test]
fn empty_input_produces_nothing() {
    let out = run("", false, &[]).unwrap();
    assert_eq!(out.files.len(), 0);
    assert_eq!(out.num_inspected, 0);
    assert_eq!(out.num_taken, 0);
}

#[test]
fn unterminated_final_line_is_still_processed() {
    let input = "#=GF ID Rec1\nseqA AC.GT";
    let out = run(input, true, &[]).unwrap();
    assert_eq!(file_content(&out, "Rec1"), ">seqA\nACGT\n");
}

#[test]
fn delimiters_alone_are_counted_but_produce_nothing() {
    let input = "//\n//\n//\n";
    let out = run(input, false, &[]).unwrap();
    assert_eq!(out.num_inspected, 3);
    assert_eq!(out.num_taken, 0);
    assert_eq!(out.files.len(), 0);
}
