//! The resolved configuration of one run: a compiled pattern, an input
//! stream and an output stream.

use crate::pattern::{compiles, parse_regex, Pattern, PatternError};
use crate::stream::{input_choice, istream_from_path, ostream_from_path, output_choice, Stream};
use vstd::prelude::*;

verus! {

/// What one run of the filter is given.
pub struct ProgramOptions {
    /// The pattern that a line must match somewhere to be kept.
    pub pattern: Pattern,
    /// Where the lines are read from.
    pub input: Stream,
    /// Where the matching lines are written to.
    pub output: Stream,
}

impl ProgramOptions {
    /// Resolves the three tokens of a run. The pattern is compiled first:
    /// when it does not compile, no stream is resolved.
    pub fn from_tokens(pattern: &str, input: &str, output: &str) -> (r: Result<
        ProgramOptions,
        PatternError,
    >)
        ensures
            r is Ok <==> compiles(pattern@),
            r matches Ok(o) ==> {
                &&& o.pattern.expr() == pattern@
                &&& o.input@ == input_choice(input@)
                &&& o.output@ == output_choice(output@)
            },
    {
        let compiled = match parse_regex(pattern) {
            Ok(p) => p,
            Err(e) => {
                return Err(e);
            },
        };
        Ok(
            ProgramOptions {
                pattern: compiled,
                input: istream_from_path(input),
                output: ostream_from_path(output),
            },
        )
    }
}

} // verus!
