//! Run-wide laws of the splitter, proved over the whole-run model.

use vstd::prelude::*;

use crate::classify::LineSpec;
use crate::filter::accepts;
use crate::machine::{
    ConfigSpec, FileSpec, gf_bytes, id_bytes, lemma_run_upto_wf, line_class, run_spec, run_upto,
};

verus! {

/// How many of the first `n` lines are record delimiters.
pub open spec fn count_delimiters(lines: Seq<Seq<u8>>, n: int) -> int
    decreases n,
{
    if n <= 0 {
        0
    } else {
        count_delimiters(lines, n - 1) + if line_class(lines[n - 1]) is Delimiter {
            1int
        } else {
            0int
        }
    }
}

/// Whether a raw line classifies as identifier metadata (`#=GF ID ...`).
pub open spec fn is_id_line(line: Seq<u8>) -> bool {
    line_class(line) matches LineSpec::Meta { category, subkey, .. } && category == gf_bytes()
        && subkey == id_bytes()
}

/// The identifier that an identifier metadata line carries.
pub open spec fn id_line_value(line: Seq<u8>) -> Seq<u8> {
    match line_class(line) {
        LineSpec::Meta { value, .. } => value,
        _ => seq![],
    }
}

/// How many of the first `n` lines are identifier metadata lines.
pub open spec fn count_id_lines(lines: Seq<Seq<u8>>, n: int) -> int
    decreases n,
{
    if n <= 0 {
        0
    } else {
        count_id_lines(lines, n - 1) + if is_id_line(lines[n - 1]) {
            1int
        } else {
            0int
        }
    }
}

/// The number of inspected records equals the number of delimiter lines, at
/// every point a run reaches.
pub proof fn lemma_inspected_counts_delimiters(lines: Seq<Seq<u8>>, cfg: ConfigSpec, n: int)
    ensures
        run_upto(lines, cfg, n) matches Ok(st) ==> st.inspected == count_delimiters(lines, n),
    decreases n,
{
    if n > 0 {
        lemma_inspected_counts_delimiters(lines, cfg, n - 1);
    }
}

/// The number of taken records never exceeds the number of identifier
/// metadata lines, and equals it when no pattern is configured, at every
/// point a run reaches.
pub proof fn lemma_taken_counts_id_lines(lines: Seq<Seq<u8>>, cfg: ConfigSpec, n: int)
    ensures
        run_upto(lines, cfg, n) matches Ok(st) ==> st.taken <= count_id_lines(lines, n),
        cfg.patterns.len() == 0 ==> (run_upto(lines, cfg, n) matches Ok(st) ==> st.taken
            == count_id_lines(lines, n)),
    decreases n,
{
    if n > 0 {
        lemma_taken_counts_id_lines(lines, cfg, n - 1);
    }
}

/// A whole run that completes inspected exactly the delimiter lines and took
/// at most the identifier lines — exactly that many when no pattern is
/// configured.
pub proof fn lemma_run_counters(lines: Seq<Seq<u8>>, cfg: ConfigSpec)
    requires
        run_spec(lines, cfg) is Ok,
    ensures
        run_spec(lines, cfg) matches Ok(st) ==> st.inspected == count_delimiters(
            lines,
            lines.len() as int,
        ) && st.taken <= count_id_lines(lines, lines.len() as int),
        cfg.patterns.len() == 0 ==> (run_spec(lines, cfg) matches Ok(st) ==> st.taken
            == count_id_lines(lines, lines.len() as int)),
{
    lemma_inspected_counts_delimiters(lines, cfg, lines.len() as int);
    lemma_taken_counts_id_lines(lines, cfg, lines.len() as int);
}

/// Filter correctness: a file for an identifier exists exactly when some
/// identifier metadata line carries that identifier and the identifier passes
/// the filter — always when no pattern is configured, otherwise when at
/// least one pattern matches.
pub proof fn lemma_filter_correctness(lines: Seq<Seq<u8>>, cfg: ConfigSpec, id: Seq<u8>, n: int)
    ensures
        run_upto(lines, cfg, n) matches Ok(st) ==> ((exists|k: int|
            0 <= k < st.files.len() && (#[trigger] st.files[k]).id == id) <==> (accepts(
            cfg.patterns,
            id,
        ) && exists|j: int| 0 <= j < n && is_id_line(#[trigger] lines[j]) && id_line_value(lines[j])
            == id)),
    decreases n,
{
    if n > 0 {
        lemma_filter_correctness(lines, cfg, id, n - 1);
        if run_upto(lines, cfg, n) is Ok {
            let st = run_upto(lines, cfg, n)->Ok_0;
            let prev = run_upto(lines, cfg, n - 1)->Ok_0;
            lemma_run_upto_wf(lines, cfg, n - 1);
            let left_prev = exists|k: int|
                0 <= k < prev.files.len() && (#[trigger] prev.files[k]).id == id;
            let left_n = exists|k: int|
                0 <= k < st.files.len() && (#[trigger] st.files[k]).id == id;
            let right_prev = exists|j: int|
                0 <= j < n - 1 && is_id_line(#[trigger] lines[j]) && id_line_value(lines[j]) == id;
            let right_n = exists|j: int|
                0 <= j < n && is_id_line(#[trigger] lines[j]) && id_line_value(lines[j]) == id;
            let new_file_has_id = line_class(lines[n - 1]) matches LineSpec::Meta {
                category,
                subkey,
                value,
            } && category == gf_bytes() && subkey == id_bytes() && accepts(cfg.patterns, value)
                && value == id;
            if right_prev {
                assert(right_n);
            }
            if left_prev {
                assert forall|k: int|
                    0 <= k < prev.files.len() && (#[trigger] prev.files[k]).id
                        == id implies 0 <= k < st.files.len() && st.files[k].id == id by {}
                assert(left_n);
            }
            if new_file_has_id {
                assert(st.files[st.files.len() - 1].id == id);
                assert(left_n);
                assert(right_n);
            }
            if left_n {
                let k = choose|k: int|
                    0 <= k < st.files.len() && (#[trigger] st.files[k]).id == id;
                if !(0 <= k < prev.files.len() && prev.files[k].id == id) {
                    assert(new_file_has_id);
                } else {
                    assert(left_prev);
                }
            }
            if right_n && accepts(cfg.patterns, id) {
                let j = choose|j: int|
                    0 <= j < n && is_id_line(#[trigger] lines[j]) && id_line_value(lines[j]) == id;
                if j == n - 1 {
                    assert(new_file_has_id);
                } else {
                    assert(right_prev);
                }
                assert(left_n);
            }
        }
    }
}

/// Order preservation: what an earlier point of the run had written is, at
/// every later point, still there unchanged — every file keeps its identity
/// and its content only grows at the end, so FASTA entries stay in input
/// order and are never reordered or rewritten.
pub proof fn lemma_output_append_only(lines: Seq<Seq<u8>>, cfg: ConfigSpec, m: int, n: int)
    requires
        0 <= m <= n,
    ensures
        run_upto(lines, cfg, n) matches Ok(stn) ==> (run_upto(lines, cfg, m) matches Ok(stm)
            ==> stm.files.len() <= stn.files.len() && (forall|k: int|
            0 <= k < stm.files.len() ==> (#[trigger] stn.files[k]).id == stm.files[k].id
                && stm.files[k].content.is_prefix_of(stn.files[k].content))),
    decreases n,
{
    if m < n {
        lemma_output_append_only(lines, cfg, m, n - 1);
        if run_upto(lines, cfg, n) is Ok {
            let stn = run_upto(lines, cfg, n)->Ok_0;
            let prev = run_upto(lines, cfg, n - 1)->Ok_0;
            let stm = run_upto(lines, cfg, m)->Ok_0;
            lemma_run_upto_wf(lines, cfg, n - 1);
            if run_upto(lines, cfg, m) is Ok {
                assert forall|k: int| 0 <= k < stm.files.len() implies (#[trigger] stn.files[k]).id
                    == stm.files[k].id && stm.files[k].content.is_prefix_of(
                    stn.files[k].content,
                ) by {
                    assert(prev.files[k].id == stm.files[k].id);
                    assert(stm.files[k].content.is_prefix_of(prev.files[k].content));
                    match line_class(lines[n - 1]) {
                        LineSpec::SequenceData { .. } => {
                            if prev.target is Some {
                                let t = prev.target->Some_0;
                                if t == k {
                                    assert(prev.files[k].content.is_prefix_of(
                                        stn.files[k].content,
                                    ));
                                } else {
                                    assert(stn.files[k] == prev.files[k]);
                                }
                            }
                        },
                        _ => {},
                    }
                }
            }
        }
    }
}

/// A disk directory after the output files are written into it, in creation
/// order: each write creates or truncates, never appends.
pub open spec fn apply_files(
    disk: Map<Seq<u8>, Seq<u8>>,
    files: Seq<FileSpec>,
    n: int,
) -> Map<Seq<u8>, Seq<u8>>
    decreases n,
{
    if n <= 0 {
        disk
    } else {
        apply_files(disk, files, n - 1).insert(files[n - 1].id, files[n - 1].content)
    }
}

/// The content of the last file in the first `n` that carries the
/// identifier, if any does.
pub open spec fn last_write(files: Seq<FileSpec>, n: int, id: Seq<u8>) -> Option<Seq<u8>>
    decreases n,
{
    if n <= 0 {
        None
    } else if files[n - 1].id == id {
        Some(files[n - 1].content)
    } else {
        last_write(files, n - 1, id)
    }
}

/// What one pass of writing leaves on disk, identifier by identifier: the
/// last write wins; untouched identifiers keep what the disk had.
pub proof fn lemma_apply_files_value(
    disk: Map<Seq<u8>, Seq<u8>>,
    files: Seq<FileSpec>,
    n: int,
    id: Seq<u8>,
)
    ensures
        last_write(files, n, id) matches Some(c) ==> apply_files(disk, files, n).dom().contains(id)
            && apply_files(disk, files, n)[id] == c,
        last_write(files, n, id) is None ==> (apply_files(disk, files, n).dom().contains(id)
            <==> disk.dom().contains(id)) && (disk.dom().contains(id) ==> apply_files(
            disk,
            files,
            n,
        )[id] == disk[id]),
    decreases n,
{
    if n > 0 {
        lemma_apply_files_value(disk, files, n - 1, id);
    }
}

/// Idempotence of writing: writing the run's files a second time over a disk
/// that already holds them changes nothing.
pub proof fn lemma_write_idempotent(disk: Map<Seq<u8>, Seq<u8>>, files: Seq<FileSpec>)
    ensures
        apply_files(
            apply_files(disk, files, files.len() as int),
            files,
            files.len() as int,
        ) == apply_files(disk, files, files.len() as int),
{
    let n = files.len() as int;
    let d1 = apply_files(disk, files, n);
    let d2 = apply_files(d1, files, n);
    assert forall|id: Seq<u8>| #[trigger] d2.dom().contains(id) <==> d1.dom().contains(id) by {
        lemma_apply_files_value(disk, files, n, id);
        lemma_apply_files_value(d1, files, n, id);
    }
    assert forall|id: Seq<u8>| d1.dom().contains(id) implies #[trigger] d2[id] == d1[id] by {
        lemma_apply_files_value(disk, files, n, id);
        lemma_apply_files_value(d1, files, n, id);
    }
    assert(d2 =~= d1);
}

/// Idempotence of the whole run: the run is a function of the input lines
/// and the configuration, so a second run over the same input produces the
/// same files, and writing them again leaves every output file byte-identical.
pub proof fn lemma_run_idempotent(disk: Map<Seq<u8>, Seq<u8>>, lines: Seq<Seq<u8>>, cfg: ConfigSpec)
    requires
        run_spec(lines, cfg) is Ok,
    ensures
        run_spec(lines, cfg) matches Ok(st) ==> apply_files(
            apply_files(disk, st.files, st.files.len() as int),
            st.files,
            st.files.len() as int,
        ) == apply_files(disk, st.files, st.files.len() as int),
{
    if run_spec(lines, cfg) is Ok {
        lemma_write_idempotent(disk, run_spec(lines, cfg)->Ok_0.files);
    }
}

} // verus!
