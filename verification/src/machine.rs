//! The record state machine and the whole-run model.
//!
//! Classified lines drive a single-slot state: at most one output target is
//! live at any time, keyed by the identifier of the most recent accepted
//! `#=GF ID` metadata line. A delimiter closes the target and counts one
//! inspected record; an accepted identifier counts one taken record and opens
//! a fresh target, truncating any earlier file of the same name; sequence
//! lines append one FASTA entry to the live target. A sequence line with no
//! live target is a structural error and aborts the whole run.

use vstd::prelude::*;

use crate::classify::{
    B_NEWLINE, Line, LineSpec, classify_line, spec_classify, split_lines, split_lines_spec,
    trim_trailing_spec,
};
use crate::filter::{IdFilter, accepts};
use crate::gaps::{normalize_gaps, normalize_gaps_spec, strip_gaps, strip_gaps_spec};

verus! {

/// The byte `>`.
pub const B_GREATER: u8 = 0x3E;

/// The metadata category `GF`.
pub open spec fn gf_bytes() -> Seq<u8> {
    seq![0x47u8, 0x46u8]
}

/// The metadata subkey `ID`.
pub open spec fn id_bytes() -> Seq<u8> {
    seq![0x49u8, 0x44u8]
}

/// Whether a metadata line's codes name a record identifier (`GF` / `ID`).
pub fn is_gf_id(category: &Vec<u8>, subkey: &Vec<u8>) -> (r: bool)
    ensures
        r == (category@ == gf_bytes() && subkey@ == id_bytes()),
{
    let r = category.len() == 2 && subkey.len() == 2 && category[0] == 0x47 && category[1] == 0x46
        && subkey[0] == 0x49 && subkey[1] == 0x44;
    proof {
        if r {
            assert(category@ =~= gf_bytes());
            assert(subkey@ =~= id_bytes());
        }
    }
    r
}

/// One output file of the model: an identifier and the bytes written to it.
pub ghost struct FileSpec {
    pub id: Seq<u8>,
    pub content: Seq<u8>,
}

/// The model's state: the files created so far in creation order, the index
/// of the live target among them (if any), whether any identifier metadata
/// line has been seen yet, and the two run counters.
pub ghost struct StateSpec {
    pub files: Seq<FileSpec>,
    pub target: Option<int>,
    pub seen_id: bool,
    pub inspected: int,
    pub taken: int,
}

/// The run's configuration: whether gaps are stripped, and the identifier
/// patterns.
pub ghost struct ConfigSpec {
    pub strip: bool,
    pub patterns: Seq<Seq<char>>,
}

/// The run's configuration.
#[derive(Debug)]
pub struct Config {
    pub strip_gaps: bool,
    pub filter: IdFilter,
}

impl View for Config {
    type V = ConfigSpec;

    open spec fn view(&self) -> ConfigSpec {
        ConfigSpec { strip: self.strip_gaps, patterns: self.filter@ }
    }
}

/// The state before any line: no files, no live target, zero counts.
pub open spec fn init_state() -> StateSpec {
    StateSpec { files: seq![], target: None, seen_id: false, inspected: 0, taken: 0 }
}

/// The state machine's invariant: the live target, when there is one, is the
/// most recently created file, and each taken record created one file.
pub open spec fn state_wf(st: StateSpec) -> bool {
    &&& (st.target matches Some(k) ==> st.files.len() >= 1 && k == st.files.len() - 1)
    &&& st.files.len() == st.taken
    &&& st.inspected >= 0
}

/// One FASTA entry as bytes: `>`, the name, a line feed, the residues with
/// gaps stripped or normalized, and a line feed.
pub open spec fn entry_bytes(name: Seq<u8>, residues: Seq<u8>, strip: bool) -> Seq<u8> {
    seq![B_GREATER] + name + seq![B_NEWLINE] + (if strip {
        strip_gaps_spec(residues)
    } else {
        normalize_gaps_spec(residues)
    }) + seq![B_NEWLINE]
}

/// One transition of the record state machine; `None` is the structural
/// error, a sequence line before any identifier metadata line. A sequence
/// line whose record was rejected by the filter, or that follows a
/// delimiter, is silently dropped.
pub open spec fn step(st: StateSpec, cl: LineSpec, cfg: ConfigSpec) -> Option<StateSpec> {
    match cl {
        LineSpec::Comment => Some(st),
        LineSpec::Other => Some(st),
        LineSpec::Delimiter => Some(
            StateSpec { target: None, inspected: st.inspected + 1, ..st },
        ),
        LineSpec::Meta { category, subkey, value } => {
            if category == gf_bytes() && subkey == id_bytes() {
                if accepts(cfg.patterns, value) {
                    Some(
                        StateSpec {
                            files: st.files.push(FileSpec { id: value, content: seq![] }),
                            target: Some(st.files.len() as int),
                            seen_id: true,
                            inspected: st.inspected,
                            taken: st.taken + 1,
                        },
                    )
                } else {
                    Some(StateSpec { seen_id: true, ..st })
                }
            } else {
                Some(st)
            }
        },
        LineSpec::SequenceData { name, residues } => match st.target {
            Some(k) => Some(
                StateSpec {
                    files: st.files.update(
                        k,
                        FileSpec {
                            id: st.files[k].id,
                            content: st.files[k].content + entry_bytes(name, residues, cfg.strip),
                        },
                    ),
                    ..st
                },
            ),
            None => if st.seen_id {
                Some(st)
            } else {
                None
            },
        },
    }
}

/// How a raw physical line is classified: trailing whitespace trimmed, then
/// matched against the five patterns.
pub open spec fn line_class(line: Seq<u8>) -> LineSpec {
    spec_classify(trim_trailing_spec(line))
}

/// The state after the first `n` lines, or the index of the line on which the
/// run aborted.
pub open spec fn run_upto(lines: Seq<Seq<u8>>, cfg: ConfigSpec, n: int) -> Result<StateSpec, int>
    decreases n,
{
    if n <= 0 {
        Ok(init_state())
    } else {
        match run_upto(lines, cfg, n - 1) {
            Ok(st) => match step(st, line_class(lines[n - 1]), cfg) {
                Some(st2) => Ok(st2),
                None => Err(n - 1),
            },
            Err(i) => Err(i),
        }
    }
}

/// The whole run over a line sequence: the final state, or the index of the
/// line on which the run aborted.
pub open spec fn run_spec(lines: Seq<Seq<u8>>, cfg: ConfigSpec) -> Result<StateSpec, int> {
    run_upto(lines, cfg, lines.len() as int)
}

/// Every reachable state satisfies the state machine's invariant.
pub proof fn lemma_run_upto_wf(lines: Seq<Seq<u8>>, cfg: ConfigSpec, n: int)
    ensures
        run_upto(lines, cfg, n) matches Ok(st) ==> state_wf(st),
    decreases n,
{
    if n > 0 {
        lemma_run_upto_wf(lines, cfg, n - 1);
    }
}

/// Once the run has aborted, processing further lines does not change that.
pub proof fn lemma_run_upto_err_persists(lines: Seq<Seq<u8>>, cfg: ConfigSpec, n: int, m: int)
    requires
        0 <= n <= m,
        run_upto(lines, cfg, n) is Err,
    ensures
        run_upto(lines, cfg, m) == run_upto(lines, cfg, n),
    decreases m,
{
    if m > n {
        lemma_run_upto_err_persists(lines, cfg, n, m - 1);
    }
}

/// One output file: the record's identifier and the bytes to be written at
/// `{outdir}/{identifier}.fa`.
#[derive(Debug)]
pub struct OutFile {
    pub id: Vec<u8>,
    pub content: Vec<u8>,
}

impl View for OutFile {
    type V = FileSpec;

    open spec fn view(&self) -> FileSpec {
        FileSpec { id: self.id@, content: self.content@ }
    }
}

impl DeepView for OutFile {
    type V = FileSpec;

    open spec fn deep_view(&self) -> FileSpec {
        self@
    }
}

/// What a completed run produced: the output files in creation order, and
/// the two counters of the run summary.
#[derive(Debug)]
pub struct RunOutput {
    pub files: Vec<OutFile>,
    pub num_inspected: usize,
    pub num_taken: usize,
}

/// The structural error: a sequence-data line appeared at the given line
/// index before any record identifier had been seen.
#[derive(Debug)]
pub enum RunError {
    SequenceBeforeId { line: usize },
}

/// Appends one FASTA entry (`>`, name, line feed, transformed residues, line
/// feed) to an open target's content.
pub fn append_entry(content: &mut Vec<u8>, name: &Vec<u8>, residues: &Vec<u8>, strip: bool)
    ensures
        final(content)@ == old(content)@ + entry_bytes(name@, residues@, strip),
{
    content.push(B_GREATER);
    push_all(content, name.as_slice());
    content.push(B_NEWLINE);
    let transformed = if strip {
        strip_gaps(residues.as_slice())
    } else {
        normalize_gaps(residues.as_slice())
    };
    push_all(content, transformed.as_slice());
    content.push(B_NEWLINE);
    proof {
        assert(content@ =~= old(content)@ + entry_bytes(name@, residues@, strip));
    }
}

/// Appends all of `src` to `dst`.
fn push_all(dst: &mut Vec<u8>, src: &[u8])
    ensures
        final(dst)@ == old(dst)@ + src@,
{
    let mut i: usize = 0;
    while i < src.len()
        invariant
            i <= src@.len(),
            dst@ == old(dst)@ + src@.subrange(0, i as int),
        decreases src@.len() - i,
    {
        dst.push(src[i]);
        proof {
            assert(dst@ =~= old(dst)@ + src@.subrange(0, i + 1 as int));
        }
        i = i + 1;
    }
    proof {
        assert(src@.subrange(0, src@.len() as int) =~= src@);
    }
}

/// The state that the executable pieces stand for: the closed files, then the
/// live target's file last, if one is open.
pub open spec fn abstract_state(
    closed_files: Seq<FileSpec>,
    has_current: bool,
    cur: FileSpec,
    seen_id: bool,
    inspected: int,
    taken: int,
) -> StateSpec {
    StateSpec {
        files: if has_current {
            closed_files.push(cur)
        } else {
            closed_files
        },
        target: if has_current {
            Some(closed_files.len() as int)
        } else {
            None
        },
        seen_id,
        inspected,
        taken,
    }
}

/// Runs the state machine over every physical line. Returns the files of the
/// accepted records, in creation order with their FASTA entries in input
/// order, and the two counters; or the structural error with the index of the
/// offending line.
pub fn process_lines(lines: &Vec<Vec<u8>>, cfg: &Config) -> (r: Result<RunOutput, RunError>)
    ensures
        ({
            let m = run_spec(lines.deep_view(), cfg@);
            match r {
                Ok(out) => m matches Ok(st) && out.files.deep_view() == st.files
                    && out.num_inspected == st.inspected && out.num_taken == st.taken,
                Err(e) => m matches Err(i) && (e matches RunError::SequenceBeforeId { line }
                    && line as int == i),
            }
        }),
{
    let ghost lv = lines.deep_view();
    let mut files: Vec<OutFile> = Vec::new();
    let mut has_current: bool = false;
    let mut seen_id: bool = false;
    let mut cur_id: Vec<u8> = Vec::new();
    let mut cur_content: Vec<u8> = Vec::new();
    let mut num_inspected: usize = 0;
    let mut num_taken: usize = 0;
    let mut i: usize = 0;
    proof {
        assert(files.deep_view() =~= Seq::<FileSpec>::empty());
    }
    while i < lines.len()
        invariant
            lv == lines.deep_view(),
            i <= lines@.len(),
            num_inspected <= i,
            num_taken <= i,
            files@.len() <= i,
            run_upto(lv, cfg@, i as int) == Ok::<StateSpec, int>(
                abstract_state(
                    files.deep_view(),
                    has_current,
                    FileSpec { id: cur_id@, content: cur_content@ },
                    seen_id,
                    num_inspected as int,
                    num_taken as int,
                ),
            ),
        decreases lines@.len() - i,
    {
        let ghost st = abstract_state(
            files.deep_view(),
            has_current,
            FileSpec { id: cur_id@, content: cur_content@ },
            seen_id,
            num_inspected as int,
            num_taken as int,
        );
        let line = &lines[i];
        let cl = classify_line(line.as_slice());
        proof {
            assert(lines@[i as int].deep_view() =~= lines@[i as int]@);
            assert(lv[i as int] == lines@[i as int]@);
            assert(cl@ == line_class(lv[i as int]));
        }
        match cl {
            Line::Comment => {},
            Line::Other => {},
            Line::Delimiter => {
                if has_current {
                    let ghost old_dv = files.deep_view();
                    files.push(OutFile { id: cur_id, content: cur_content });
                    cur_id = Vec::new();
                    cur_content = Vec::new();
                    has_current = false;
                    proof {
                        assert(files.deep_view() =~~= old_dv.push(st.files.last()));
                        assert(files.deep_view() =~~= st.files);
                    }
                }
                num_inspected = num_inspected + 1;
            },
            Line::Meta { category, subkey, value } => {
                if is_gf_id(&category, &subkey) {
                    seen_id = true;
                    if cfg.filter.matches_id(value.as_slice()) {
                        if has_current {
                            let ghost old_dv = files.deep_view();
                            files.push(OutFile { id: cur_id, content: cur_content });
                            proof {
                                assert(files.deep_view() =~~= old_dv.push(st.files.last()));
                                assert(files.deep_view() =~~= st.files);
                            }
                            cur_id = value;
                            cur_content = Vec::new();
                        } else {
                            cur_id = value;
                            cur_content = Vec::new();
                            has_current = true;
                        }
                        num_taken = num_taken + 1;
                    }
                }
            },
            Line::SequenceData { name, residues } => {
                if has_current {
                    append_entry(&mut cur_content, &name, &residues, cfg.strip_gaps);
                } else if !seen_id {
                    proof {
                        assert(run_upto(lv, cfg@, i + 1) == Err::<StateSpec, int>(i as int));
                        lemma_run_upto_err_persists(lv, cfg@, i + 1, lv.len() as int);
                    }
                    return Err(RunError::SequenceBeforeId { line: i });
                }
            },
        }
        proof {
            let st2 = abstract_state(
                files.deep_view(),
                has_current,
                FileSpec { id: cur_id@, content: cur_content@ },
                seen_id,
                num_inspected as int,
                num_taken as int,
            );
            assert(step(st, line_class(lv[i as int]), cfg@) matches Some(s) && s.files
                =~~= st2.files && s.target == st2.target && s.seen_id == st2.seen_id
                && s.inspected == st2.inspected && s.taken == st2.taken);
        }
        i = i + 1;
    }
    if has_current {
        let ghost old_dv = files.deep_view();
        let ghost st = abstract_state(
            files.deep_view(),
            has_current,
            FileSpec { id: cur_id@, content: cur_content@ },
            seen_id,
            num_inspected as int,
            num_taken as int,
        );
        files.push(OutFile { id: cur_id, content: cur_content });
        proof {
            assert(files.deep_view() =~~= old_dv.push(st.files.last()));
            assert(files.deep_view() =~~= st.files);
        }
    }
    Ok(RunOutput { files, num_inspected, num_taken })
}

/// Splits raw input into physical lines and runs the state machine over
/// them.
pub fn process_input(data: &[u8], cfg: &Config) -> (r: Result<RunOutput, RunError>)
    ensures
        ({
            let m = run_spec(split_lines_spec(data@), cfg@);
            match r {
                Ok(out) => m matches Ok(st) && out.files.deep_view() == st.files
                    && out.num_inspected == st.inspected && out.num_taken == st.taken,
                Err(e) => m matches Err(i) && (e matches RunError::SequenceBeforeId { line }
                    && line as int == i),
            }
        }),
{
    let lines = split_lines(data);
    process_lines(&lines, cfg)
}

} // verus!
