//! Line classification for the Stockholm alignment format.
//!
//! Each physical input line is read as raw bytes, one Unicode scalar value per
//! byte, trimmed of trailing whitespace, and sorted into exactly one of five
//! kinds, in this precedence order: comment (`#` followed by whitespace),
//! record delimiter (`//` alone on the line), metadata (`#=`, a two-byte
//! category, whitespace, a two-byte subkey, whitespace, a value), sequence
//! data (exactly two whitespace-separated tokens), and everything else.

use vstd::prelude::*;

verus! {

/// The byte `#`.
pub const B_HASH: u8 = 0x23;

/// The byte `=`.
pub const B_EQUALS: u8 = 0x3D;

/// The byte `/`.
pub const B_SLASH: u8 = 0x2F;

/// The line-feed byte.
pub const B_NEWLINE: u8 = 0x0A;

/// A byte is whitespace if the character it stands for (each byte read as one
/// Unicode scalar value in 0..=255) is whitespace: tab through carriage
/// return, space, next line (0x85) and no-break space (0xA0).
pub open spec fn is_space(b: u8) -> bool {
    b == 0x09 || b == 0x0A || b == 0x0B || b == 0x0C || b == 0x0D || b == 0x20 || b == 0x85
        || b == 0xA0
}

/// Executable mirror of `is_space`.
pub fn byte_is_space(b: u8) -> (r: bool)
    ensures
        r == is_space(b),
{
    b == 0x09 || b == 0x0A || b == 0x0B || b == 0x0C || b == 0x0D || b == 0x20 || b == 0x85
        || b == 0xA0
}

/// The line with its trailing whitespace (line terminators included) removed.
pub open spec fn trim_trailing_spec(s: Seq<u8>) -> Seq<u8>
    decreases s.len(),
{
    if s.len() > 0 && is_space(s.last()) {
        trim_trailing_spec(s.drop_last())
    } else {
        s
    }
}

/// Removes trailing whitespace bytes from a line.
pub fn trim_trailing(line: &[u8]) -> (r: Vec<u8>)
    ensures
        r@ == trim_trailing_spec(line@),
{
    let mut end: usize = line.len();
    proof {
        assert(line@.subrange(0, line@.len() as int) =~= line@);
    }
    while end > 0 && byte_is_space(line[end - 1])
        invariant
            end <= line@.len(),
            trim_trailing_spec(line@) == trim_trailing_spec(line@.subrange(0, end as int)),
        decreases end,
    {
        proof {
            assert(line@.subrange(0, end as int).drop_last() =~= line@.subrange(0, end - 1));
        }
        end = end - 1;
    }
    let r = copy_range(line, 0, end);
    proof {
        assert(trim_trailing_spec(line@.subrange(0, end as int)) == line@.subrange(0, end as int));
    }
    r
}

/// Copies `line[from..to]` into a fresh vector.
pub fn copy_range(line: &[u8], from: usize, to: usize) -> (r: Vec<u8>)
    requires
        from <= to <= line@.len(),
    ensures
        r@ == line@.subrange(from as int, to as int),
{
    let mut r: Vec<u8> = Vec::new();
    let mut i: usize = from;
    while i < to
        invariant
            from <= i <= to <= line@.len(),
            r@ == line@.subrange(from as int, i as int),
        decreases to - i,
    {
        r.push(line[i]);
        proof {
            assert(r@ =~= line@.subrange(from as int, i + 1 as int));
        }
        i = i + 1;
    }
    r
}

/// The first index at or after `i` that holds a non-whitespace byte, or the
/// line's length if only whitespace remains.
pub open spec fn skip_spaces(s: Seq<u8>, i: int) -> int
    decreases s.len() - i,
{
    if 0 <= i < s.len() && is_space(s[i]) {
        skip_spaces(s, i + 1)
    } else {
        i
    }
}

/// The first index at or after `i` that holds a whitespace byte, or the
/// line's length if none follows.
pub open spec fn skip_non_spaces(s: Seq<u8>, i: int) -> int
    decreases s.len() - i,
{
    if 0 <= i < s.len() && !is_space(s[i]) {
        skip_non_spaces(s, i + 1)
    } else {
        i
    }
}

pub proof fn lemma_skip_bounds(s: Seq<u8>, i: int)
    requires
        0 <= i <= s.len(),
    ensures
        i <= skip_spaces(s, i) <= s.len(),
        i <= skip_non_spaces(s, i) <= s.len(),
    decreases s.len() - i,
{
    if i < s.len() {
        lemma_skip_bounds(s, i + 1);
    }
}

/// Advances past whitespace, starting at `i`.
pub fn find_non_space(line: &[u8], i: usize) -> (r: usize)
    requires
        i <= line@.len(),
    ensures
        r == skip_spaces(line@, i as int),
        i <= r <= line@.len(),
{
    let mut j: usize = i;
    while j < line.len() && byte_is_space(line[j])
        invariant
            i <= j <= line@.len(),
            skip_spaces(line@, i as int) == skip_spaces(line@, j as int),
        decreases line@.len() - j,
    {
        j = j + 1;
    }
    j
}

/// Advances past non-whitespace, starting at `i`.
pub fn find_space(line: &[u8], i: usize) -> (r: usize)
    requires
        i <= line@.len(),
    ensures
        r == skip_non_spaces(line@, i as int),
        i <= r <= line@.len(),
{
    let mut j: usize = i;
    while j < line.len() && !byte_is_space(line[j])
        invariant
            i <= j <= line@.len(),
            skip_non_spaces(line@, i as int) == skip_non_spaces(line@, j as int),
        decreases line@.len() - j,
    {
        j = j + 1;
    }
    j
}

/// A comment line: `#` followed by a whitespace byte.
pub open spec fn comment_matches(s: Seq<u8>) -> bool {
    s.len() >= 2 && s[0] == B_HASH && is_space(s[1])
}

/// A record delimiter: exactly the two bytes `//`.
pub open spec fn delimiter_matches(s: Seq<u8>) -> bool {
    s.len() == 2 && s[0] == B_SLASH && s[1] == B_SLASH
}

/// A metadata line, on a trimmed line: `#=`, two non-whitespace category
/// bytes, one or more whitespace bytes, two non-whitespace subkey bytes, one
/// or more whitespace bytes, and a non-empty value running to the line's end.
pub open spec fn meta_matches(s: Seq<u8>) -> bool {
    s.len() >= 4 && s[0] == B_HASH && s[1] == B_EQUALS && !is_space(s[2]) && !is_space(s[3]) && {
        let i = skip_spaces(s, 4);
        4 < i && i + 2 <= s.len() && !is_space(s[i]) && !is_space(s[i + 1]) && {
            let j = skip_spaces(s, i + 2);
            i + 2 < j < s.len()
        }
    }
}

/// The two category bytes of a metadata line.
pub open spec fn meta_category(s: Seq<u8>) -> Seq<u8> {
    s.subrange(2, 4)
}

/// The two subkey bytes of a metadata line.
pub open spec fn meta_subkey(s: Seq<u8>) -> Seq<u8> {
    let i = skip_spaces(s, 4);
    s.subrange(i, i + 2)
}

/// The value of a metadata line: everything after the whitespace run that
/// follows the subkey.
pub open spec fn meta_value(s: Seq<u8>) -> Seq<u8> {
    let i = skip_spaces(s, 4);
    let j = skip_spaces(s, i + 2);
    s.subrange(j, s.len() as int)
}

/// A sequence-data line, on a trimmed line: a non-empty run of non-whitespace
/// bytes (the name), one or more whitespace bytes, and a second non-empty run
/// of non-whitespace bytes (the residues) that ends the line.
pub open spec fn sequence_matches(s: Seq<u8>) -> bool {
    s.len() >= 3 && !is_space(s[0]) && {
        let i = skip_non_spaces(s, 0);
        i < s.len() && {
            let j = skip_spaces(s, i);
            j < s.len() && skip_non_spaces(s, j) == s.len()
        }
    }
}

/// The name token of a sequence-data line.
pub open spec fn sequence_name(s: Seq<u8>) -> Seq<u8> {
    s.subrange(0, skip_non_spaces(s, 0))
}

/// The residues token of a sequence-data line.
pub open spec fn sequence_residues(s: Seq<u8>) -> Seq<u8> {
    let i = skip_non_spaces(s, 0);
    let j = skip_spaces(s, i);
    s.subrange(j, s.len() as int)
}

/// The mathematical image of a classified line.
pub ghost enum LineSpec {
    Comment,
    Delimiter,
    Meta { category: Seq<u8>, subkey: Seq<u8>, value: Seq<u8> },
    SequenceData { name: Seq<u8>, residues: Seq<u8> },
    Other,
}

/// One classified input line.
#[derive(Debug)]
pub enum Line {
    Comment,
    Delimiter,
    Meta { category: Vec<u8>, subkey: Vec<u8>, value: Vec<u8> },
    SequenceData { name: Vec<u8>, residues: Vec<u8> },
    Other,
}

impl View for Line {
    type V = LineSpec;

    open spec fn view(&self) -> LineSpec {
        match self {
            Line::Comment => LineSpec::Comment,
            Line::Delimiter => LineSpec::Delimiter,
            Line::Meta { category, subkey, value } => LineSpec::Meta {
                category: category@,
                subkey: subkey@,
                value: value@,
            },
            Line::SequenceData { name, residues } => LineSpec::SequenceData {
                name: name@,
                residues: residues@,
            },
            Line::Other => LineSpec::Other,
        }
    }
}

/// How one trimmed line is classified: the first of the five patterns that
/// matches wins.
pub open spec fn spec_classify(s: Seq<u8>) -> LineSpec {
    if comment_matches(s) {
        LineSpec::Comment
    } else if delimiter_matches(s) {
        LineSpec::Delimiter
    } else if meta_matches(s) {
        LineSpec::Meta {
            category: meta_category(s),
            subkey: meta_subkey(s),
            value: meta_value(s),
        }
    } else if sequence_matches(s) {
        LineSpec::SequenceData { name: sequence_name(s), residues: sequence_residues(s) }
    } else {
        LineSpec::Other
    }
}

/// Classifies one already-trimmed line.
pub fn classify_trimmed(line: &[u8]) -> (c: Line)
    ensures
        c@ == spec_classify(line@),
{
    let n = line.len();
    if n >= 2 && line[0] == B_HASH && byte_is_space(line[1]) {
        return Line::Comment;
    }
    if n == 2 && line[0] == B_SLASH && line[1] == B_SLASH {
        return Line::Delimiter;
    }
    if n >= 4 && line[0] == B_HASH && line[1] == B_EQUALS && !byte_is_space(line[2]) && !byte_is_space(
        line[3],
    ) {
        let i = find_non_space(line, 4);
        if 4 < i && i <= n - 2 && !byte_is_space(line[i]) && !byte_is_space(line[i + 1]) {
            let j = find_non_space(line, i + 2);
            if i + 2 < j && j < n {
                return Line::Meta {
                    category: copy_range(line, 2, 4),
                    subkey: copy_range(line, i, i + 2),
                    value: copy_range(line, j, n),
                };
            }
        }
    }
    if n >= 3 && !byte_is_space(line[0]) {
        let i = find_space(line, 0);
        if i < n {
            let j = find_non_space(line, i);
            if j < n && find_space(line, j) == n {
                return Line::SequenceData {
                    name: copy_range(line, 0, i),
                    residues: copy_range(line, j, n),
                };
            }
        }
    }
    Line::Other
}

/// Trims a raw line's trailing whitespace and classifies what remains.
pub fn classify_line(line: &[u8]) -> (c: Line)
    ensures
        c@ == spec_classify(trim_trailing_spec(line@)),
{
    let trimmed = trim_trailing(line);
    classify_trimmed(trimmed.as_slice())
}

/// The first index at or after `i` that holds a line-feed byte, or the
/// input's length if none follows.
pub open spec fn skip_to_newline(s: Seq<u8>, i: int) -> int
    decreases s.len() - i,
{
    if 0 <= i < s.len() && s[i] != B_NEWLINE {
        skip_to_newline(s, i + 1)
    } else {
        i
    }
}

/// The physical lines of the input, starting at position `p`: each maximal
/// chunk that ends with a line feed, and the unterminated remainder, if any,
/// as a final line.
pub open spec fn split_lines_from(data: Seq<u8>, p: int) -> Seq<Seq<u8>>
    decreases data.len() - p,
{
    if 0 <= p < data.len() {
        let i = skip_to_newline(data, p);
        if p <= i < data.len() {
            seq![data.subrange(p, i + 1)] + split_lines_from(data, i + 1)
        } else {
            seq![data.subrange(p, data.len() as int)]
        }
    } else {
        seq![]
    }
}

/// The physical lines of the input, line feeds kept.
pub open spec fn split_lines_spec(data: Seq<u8>) -> Seq<Seq<u8>> {
    split_lines_from(data, 0)
}

/// Splits raw input into physical lines at line-feed bytes; each line keeps
/// its terminator, and a final unterminated chunk is a line of its own.
pub fn split_lines(data: &[u8]) -> (r: Vec<Vec<u8>>)
    ensures
        r.deep_view() == split_lines_spec(data@),
{
    let mut r: Vec<Vec<u8>> = Vec::new();
    let mut start: usize = 0;
    let mut i: usize = 0;
    while i < data.len()
        invariant
            start <= i <= data@.len(),
            skip_to_newline(data@, start as int) == skip_to_newline(data@, i as int),
            r.deep_view() + split_lines_from(data@, start as int) == split_lines_spec(data@),
        decreases data@.len() - i,
    {
        if data[i] == B_NEWLINE {
            let line = copy_range(data, start, i + 1);
            let ghost old_dv = r.deep_view();
            r.push(line);
            proof {
                assert(r.deep_view() =~~= old_dv.push(line@));
                assert(skip_to_newline(data@, i as int) == i);
                assert(r.deep_view() + split_lines_from(data@, i + 1) =~~= old_dv
                    + split_lines_from(data@, start as int));
            }
            start = i + 1;
        }
        i = i + 1;
    }
    if start < data.len() {
        let line = copy_range(data, start, data.len());
        let ghost old_dv = r.deep_view();
        r.push(line);
        proof {
            assert(skip_to_newline(data@, start as int) == data@.len());
            assert(r.deep_view() =~~= old_dv.push(line@));
            assert(r.deep_view() =~~= old_dv + split_lines_from(data@, start as int));
        }
    }
    proof {
        assert(r.deep_view() =~~= split_lines_spec(data@));
    }
    r
}

} // verus!
