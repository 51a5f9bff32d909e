//! Unit-level checks: line classification, gap transforms, line splitting,
//! the identifier filter and the configuration surface.

use stk2fasta::Args;
use stk2fasta::classify::{Line, classify_line, split_lines, trim_trailing};
use stk2fasta::config_from_args;
use stk2fasta::filter::IdFilter;
use stk2fasta::gaps::{normalize_gaps, strip_gaps};

#[test]
fn classify_comment() {
    assert!(matches!(classify_line(b"# STOCKHOLM 1.0\n"), Line::Comment));
    assert!(matches!(classify_line(b"#\tnote"), Line::Comment));
}

#[test]
fn classify_delimiter() {
    assert!(matches!(classify_line(b"//\n"), Line::Delimiter));
    assert!(matches!(classify_line(b"//   \r\n"), Line::Delimiter));
    assert!(matches!(classify_line(b"///"), Line::Other));
}

#[test]
fn classify_meta() {
    match classify_line(b"#=GF ID Charlie1-L_tua\n") {
        Line::Meta { category, subkey, value } => {
            assert_eq!(category, b"GF".to_vec());
            assert_eq!(subkey, b"ID".to_vec());
            assert_eq!(value, b"Charlie1-L_tua".to_vec());
        }
        other => panic!("expected a metadata line, got {other:?}"),
    }
    match classify_line(b"#=GF DE Some description here\n") {
        Line::Meta { category, subkey, value } => {
            assert_eq!(category, b"GF".to_vec());
            assert_eq!(subkey, b"DE".to_vec());
            assert_eq!(value, b"Some description here".to_vec());
        }
        other => panic!("expected a metadata line, got {other:?}"),
    }
    // The subkey is exactly two non-whitespace bytes followed by whitespace.
    assert!(matches!(classify_line(b"#=GC SS_cons <<<>>>\n"), Line::Other));
}

#[test]
fn classify_sequence() {
    match classify_line(b"seqA AC.GT\n") {
        Line::SequenceData { name, residues } => {
            assert_eq!(name, b"seqA".to_vec());
            assert_eq!(residues, b"AC.GT".to_vec());
        }
        other => panic!("expected a sequence line, got {other:?}"),
    }
}

#[test]
fn classify_precedence_and_other() {
    assert!(matches!(classify_line(b""), Line::Other));
    assert!(matches!(classify_line(b"   \n"), Line::Other));
    assert!(matches!(classify_line(b"one two three\n"), Line::Other));
    assert!(matches!(classify_line(b"#=GF IDX extra token\n"), Line::Other));
    // A bare `#word` line is two tokens, not a comment: `#` must be followed
    // by whitespace to be one.
    assert!(matches!(classify_line(b"#foo bar\n"), Line::SequenceData { .. }));
}

#[test]
fn trim_trailing_strips_terminators_only() {
    assert_eq!(trim_trailing(b"  abc \r\n"), b"  abc".to_vec());
    assert_eq!(trim_trailing(b"abc"), b"abc".to_vec());
    assert_eq!(trim_trailing(b" \t \n"), b"".to_vec());
}

#[test]
fn split_lines_keeps_terminators() {
    let lines = split_lines(b"a\nbb\n\nc");
    assert_eq!(
        lines,
        vec![b"a\n".to_vec(), b"bb\n".to_vec(), b"\n".to_vec(), b"c".to_vec()]
    );
    assert_eq!(split_lines(b""), Vec::<Vec<u8>>::new());
}

#[test]
fn gap_transforms() {
    assert_eq!(normalize_gaps(b"AC.G-T."), b"AC-G-T-".to_vec());
    assert_eq!(strip_gaps(b"AC.G-T."), b"ACGT".to_vec());
    assert_eq!(strip_gaps(b"...---"), b"".to_vec());
    assert_eq!(normalize_gaps(b"ACGT"), b"ACGT".to_vec());
}

#[test]
fn filter_compiles_patterns_once_and_reports_bad_ones() {
    let bad = IdFilter::new(vec!["rec".to_string(), "[".to_string()]).unwrap_err();
    assert_eq!(bad.pattern, "[");
    let ok = IdFilter::new(vec!["^rec".to_string()]).unwrap();
    assert!(ok.matches_id(b"Rec1"));
    assert!(!ok.matches_id(b"unrec"));
}

#[test]
fn empty_filter_accepts_everything() {
    let all = IdFilter::new(Vec::new()).unwrap();
    assert_eq!(all.len(), 0);
    assert!(all.matches_id(b"anything"));
    assert!(all.matches_id(b""));
}

#[test]
fn filter_patterns_are_trimmed_and_case_insensitive() {
    let f = IdFilter::new(vec!["  ReC1  ".to_string()]).unwrap();
    assert!(f.matches_id(b"REC1"));
    assert!(f.matches_id(b"xrec1y"));
    assert!(!f.matches_id(b"rec2"));
}

#[test]
fn config_from_args_carries_the_surface_over() {
    let args = Args {
        filename: "-".to_string(),
        outdir: "out".to_string(),
        no_gap: true,
        grep: vec!["rec".to_string()],
    };
    let cfg = config_from_args(args).unwrap();
    assert!(cfg.strip_gaps);
    assert!(cfg.filter.matches_id(b"Rec1"));

    let bad = Args {
        filename: "-".to_string(),
        outdir: "out".to_string(),
        no_gap: false,
        grep: vec!["(".to_string()],
    };
    assert_eq!(config_from_args(bad).unwrap_err().pattern, "(");
}
