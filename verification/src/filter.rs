//! The identifier filter: zero or more case-insensitive patterns, combined
//! with inclusive OR.
//!
//! A record identifier passes when no pattern is configured, or when at least
//! one pattern matches it. Each pattern is handed to the regex engine
//! trimmed, lowercased and compiled case-insensitively; a pattern that does
//! not compile is a configuration-time error, found before any input is read.

use vstd::prelude::*;

verus! {

/// Whether the pattern text, trimmed, lowercased and compiled as a
/// case-insensitive regular expression, is a well-formed pattern.
pub uninterp spec fn ci_pattern_ok(pattern: Seq<char>) -> bool;

/// Whether the case-insensitive regular expression built from the trimmed,
/// lowercased pattern text matches the identifier, each identifier byte read
/// as one character.
pub uninterp spec fn ci_match(pattern: Seq<char>, id: Seq<u8>) -> bool;

/// Relies on `regex::RegexBuilder::build`: whether the pattern (trimmed and
/// lowercased, as the builder is handed it) compiles case-insensitively is a
/// function of the pattern text alone.
#[verifier::external_body]
fn ci_pattern_compiles(pattern: &str) -> (r: bool)
    ensures
        r == ci_pattern_ok(pattern@),
{
    regex::RegexBuilder::new(&pattern.trim().to_lowercase()).case_insensitive(true).build().is_ok()
}

/// Relies on `regex::Regex::is_match`, on the expression that
/// `regex::RegexBuilder::build` compiles case-insensitively from the trimmed,
/// lowercased pattern: the verdict is a function of the pattern text and the
/// identifier bytes alone. `None` exactly when the pattern does not compile.
#[verifier::external_body]
fn ci_pattern_match(pattern: &str, id: &[u8]) -> (r: Option<bool>)
    ensures
        r is Some <==> ci_pattern_ok(pattern@),
        r matches Some(b) ==> b == ci_match(pattern@, id@),
{
    let built = regex::RegexBuilder::new(&pattern.trim().to_lowercase())
        .case_insensitive(true)
        .build();
    match built {
        Ok(re) => {
            let text: String = id.iter().map(|&b| b as char).collect();
            Some(re.is_match(&text))
        },
        Err(_) => None,
    }
}

/// Whether an identifier passes a pattern set: always when the set is empty,
/// otherwise when at least one pattern matches.
pub open spec fn accepts(patterns: Seq<Seq<char>>, id: Seq<u8>) -> bool {
    patterns.len() == 0 || exists|k: int| 0 <= k < patterns.len() && ci_match(patterns[k], id)
}

/// A pattern that did not compile, reported before any input is read.
#[derive(Debug)]
pub struct FilterError {
    pub pattern: String,
}

/// A validated set of identifier patterns.
#[derive(Debug)]
pub struct IdFilter {
    patterns: Vec<String>,
}

impl View for IdFilter {
    type V = Seq<Seq<char>>;

    closed spec fn view(&self) -> Seq<Seq<char>> {
        self.patterns.deep_view()
    }
}

impl IdFilter {
    /// Every configured pattern compiles.
    #[verifier::type_invariant]
    spec fn wf(&self) -> bool {
        forall|k: int|
            0 <= k < self.patterns@.len() ==> ci_pattern_ok(#[trigger] self.patterns@[k]@)
    }

    /// Builds the filter, compiling each pattern once; a pattern that does
    /// not compile is returned as the error.
    pub fn new(patterns: Vec<String>) -> (r: Result<IdFilter, FilterError>)
        ensures
            r is Ok <==> (forall|k: int|
                0 <= k < patterns.deep_view().len() ==> ci_pattern_ok(
                    #[trigger] patterns.deep_view()[k],
                )),
            r matches Ok(f) ==> f@ == patterns.deep_view(),
            r matches Err(e) ==> !ci_pattern_ok(e.pattern@) && (exists|k: int|
                0 <= k < patterns.deep_view().len() && patterns.deep_view()[k] == e.pattern@),
    {
        let mut k: usize = 0;
        while k < patterns.len()
            invariant
                k <= patterns@.len(),
                forall|j: int|
                    0 <= j < k ==> ci_pattern_ok(#[trigger] patterns.deep_view()[j]),
            decreases patterns@.len() - k,
        {
            if !ci_pattern_compiles(patterns[k].as_str()) {
                proof {
                    assert(patterns.deep_view()[k as int] == patterns@[k as int]@);
                }
                return Err(FilterError { pattern: patterns[k].clone() });
            }
            k = k + 1;
        }
        proof {
            assert forall|j: int| 0 <= j < patterns@.len() implies ci_pattern_ok(
                #[trigger] patterns@[j]@,
            ) by {
                assert(patterns.deep_view()[j] == patterns@[j]@);
            }
        }
        Ok(IdFilter { patterns })
    }

    /// The number of configured patterns.
    pub fn len(&self) -> (r: usize)
        ensures
            r == self@.len(),
    {
        self.patterns.len()
    }

    /// Whether the identifier passes the filter: true when no pattern is
    /// configured, otherwise true exactly when some pattern matches.
    pub fn matches_id(&self, id: &[u8]) -> (r: bool)
        ensures
            r == accepts(self@, id@),
    {
        proof {
            use_type_invariant(self);
        }
        if self.patterns.len() == 0 {
            return true;
        }
        let mut k: usize = 0;
        while k < self.patterns.len()
            invariant
                self.wf(),
                k <= self.patterns@.len(),
                forall|j: int| 0 <= j < k ==> !ci_match(#[trigger] self.patterns.deep_view()[j], id@),
            decreases self.patterns@.len() - k,
        {
            let verdict = ci_pattern_match(self.patterns[k].as_str(), id);
            match verdict {
                Some(true) => {
                    proof {
                        assert(self@[k as int] == self.patterns@[k as int]@);
                    }
                    return true;
                },
                Some(false) => {},
                None => {
                    proof {
                        assert(ci_pattern_ok(self.patterns@[k as int]@));
                        assert(false);
                    }
                },
            }
            k = k + 1;
        }
        false
    }
}

} // verus!
