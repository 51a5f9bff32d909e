//! Splits a Stockholm-format multiple-sequence-alignment file into one FASTA
//! file per alignment record, named by the record's identifier, optionally
//! filtered by identifier pattern and optionally stripped of alignment gaps.
//!
//! The verified core works on plain bytes: [`classify`] sorts each physical
//! line into one of five kinds, [`machine`] drives the record state machine
//! over the classified lines and models the whole run, [`gaps`] transforms
//! residue strings, and [`filter`] gates records by identifier. Reading the
//! input and writing the output files live outside the library and exchange
//! plain values with it.

pub mod classify;
pub mod filter;
pub mod gaps;
pub mod laws;
pub mod machine;

use vstd::prelude::*;

use crate::filter::{FilterError, IdFilter, ci_pattern_ok};
use crate::machine::Config;

verus! {

/// The run's command-line surface: input path, output directory, whether to
/// strip gaps, and the identifier patterns.
pub struct Args {
    /// Input file, `-` for the standard input stream.
    pub filename: String,
    /// Output directory.
    pub outdir: String,
    /// Strip gap characters (`.`/`-`).
    pub no_gap: bool,
    /// Match ID names.
    pub grep: Vec<String>,
}

/// Builds the run's configuration from the argument surface: the gap flag is
/// taken over, and the identifier patterns are compiled once; a pattern that
/// does not compile is returned as the error.
pub fn config_from_args(args: Args) -> (r: Result<Config, FilterError>)
    ensures
        r is Ok <==> (forall|k: int|
            0 <= k < args.grep.deep_view().len() ==> ci_pattern_ok(
                #[trigger] args.grep.deep_view()[k],
            )),
        r matches Ok(c) ==> c@.strip == args.no_gap && c@.patterns == args.grep.deep_view(),
        r matches Err(e) ==> !ci_pattern_ok(e.pattern@) && (exists|k: int|
            0 <= k < args.grep.deep_view().len() && args.grep.deep_view()[k] == e.pattern@),
{
    let no_gap = args.no_gap;
    match IdFilter::new(args.grep) {
        Ok(filter) => Ok(Config { strip_gaps: no_gap, filter }),
        Err(e) => Err(e),
    }
}

} // verus!
