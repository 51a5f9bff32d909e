//! Gap handling for residue strings.
//!
//! Alignment gaps are written `.` or `-`. When gaps are kept, every `.` is
//! normalized to the canonical gap symbol `-` and the residue count is
//! unchanged; when gaps are stripped, every gap byte is removed outright.

use vstd::prelude::*;

verus! {

/// The byte `.`.
pub const B_DOT: u8 = 0x2E;

/// The byte `-`.
pub const B_DASH: u8 = 0x2D;

/// A gap byte: `.` or `-`.
pub open spec fn is_gap(b: u8) -> bool {
    b == B_DOT || b == B_DASH
}

/// The residues with every `.` replaced by `-`; nothing else changes.
pub open spec fn normalize_gaps_spec(s: Seq<u8>) -> Seq<u8> {
    s.map_values(|b: u8| if b == B_DOT { B_DASH } else { b })
}

/// The residues with every gap byte removed, order otherwise kept.
pub open spec fn strip_gaps_spec(s: Seq<u8>) -> Seq<u8>
    decreases s.len(),
{
    if s.len() == 0 {
        seq![]
    } else if is_gap(s.last()) {
        strip_gaps_spec(s.drop_last())
    } else {
        strip_gaps_spec(s.drop_last()).push(s.last())
    }
}

/// Replaces every `.` in the residues with `-`.
pub fn normalize_gaps(s: &[u8]) -> (r: Vec<u8>)
    ensures
        r@ == normalize_gaps_spec(s@),
{
    let mut r: Vec<u8> = Vec::new();
    let mut i: usize = 0;
    while i < s.len()
        invariant
            i <= s@.len(),
            r@ == normalize_gaps_spec(s@.subrange(0, i as int)),
        decreases s@.len() - i,
    {
        let b = s[i];
        if b == B_DOT {
            r.push(B_DASH);
        } else {
            r.push(b);
        }
        proof {
            assert(r@ =~= normalize_gaps_spec(s@.subrange(0, i + 1 as int)));
        }
        i = i + 1;
    }
    proof {
        assert(s@.subrange(0, s@.len() as int) =~= s@);
    }
    r
}

/// Removes every gap byte (`.` or `-`) from the residues.
pub fn strip_gaps(s: &[u8]) -> (r: Vec<u8>)
    ensures
        r@ == strip_gaps_spec(s@),
{
    let mut r: Vec<u8> = Vec::new();
    let mut i: usize = 0;
    while i < s.len()
        invariant
            i <= s@.len(),
            r@ == strip_gaps_spec(s@.subrange(0, i as int)),
        decreases s@.len() - i,
    {
        let b = s[i];
        if !(b == B_DOT || b == B_DASH) {
            r.push(b);
        }
        proof {
            assert(s@.subrange(0, i + 1 as int).drop_last() =~= s@.subrange(0, i as int));
        }
        i = i + 1;
    }
    proof {
        assert(s@.subrange(0, s@.len() as int) =~= s@);
    }
    r
}

/// Gap-handling law: stripping removes every gap byte and keeps the others in
/// order; normalizing keeps the residue count and maps exactly `.` to `-`.
pub proof fn lemma_gap_handling(s: Seq<u8>)
    ensures
        forall|i: int| 0 <= i < strip_gaps_spec(s).len() ==> !is_gap(#[trigger] strip_gaps_spec(s)[i]),
        normalize_gaps_spec(s).len() == s.len(),
        forall|i: int|
            0 <= i < s.len() ==> #[trigger] normalize_gaps_spec(s)[i] == (if s[i] == B_DOT {
                B_DASH
            } else {
                s[i]
            }),
    decreases s.len(),
{
    if s.len() > 0 {
        lemma_gap_handling(s.drop_last());
        if !is_gap(s.last()) {
            assert forall|i: int| 0 <= i < strip_gaps_spec(s).len() implies !is_gap(
                strip_gaps_spec(s)[i],
            ) by {
                if i < strip_gaps_spec(s).len() - 1 {
                    assert(strip_gaps_spec(s)[i] == strip_gaps_spec(s.drop_last())[i]);
                } else {
                    assert(strip_gaps_spec(s)[i] == s.last());
                }
            }
        }
    }
}

/// Stripping after normalizing removes the same bytes as stripping alone: the
/// two gap symbols collapse to one and are then removed together.
pub proof fn lemma_strip_after_normalize(s: Seq<u8>)
    ensures
        strip_gaps_spec(normalize_gaps_spec(s)) == strip_gaps_spec(s),
    decreases s.len(),
{
    if s.len() == 0 {
        assert(normalize_gaps_spec(s) =~= Seq::<u8>::empty());
    } else {
        lemma_strip_after_normalize(s.drop_last());
        assert(normalize_gaps_spec(s).drop_last() =~= normalize_gaps_spec(s.drop_last()));
        assert(normalize_gaps_spec(s).last() == (if s.last() == B_DOT {
            B_DASH
        } else {
            s.last()
        }));
    }
}

} // verus!
