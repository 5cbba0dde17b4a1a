//! Compiled patterns, built on the `regex` crate.

use vstd::prelude::*;

verus! {

/// The compiled form of an expression, from the `regex` crate; opaque here.
#[verifier::external_type_specification]
#[verifier::external_body]
pub struct ExRegex(regex::Regex);

/// Why `regex::Regex::new` rejected an expression; opaque here.
#[verifier::external_type_specification]
#[verifier::external_body]
pub struct ExRegexError(regex::Error);

/// Whether `regex::Regex::new` accepts the expression `expr`.
pub uninterp spec fn compiles(expr: Seq<char>) -> bool;

/// Whether the regex compiled from `expr` matches somewhere in `text`.
pub uninterp spec fn finds_match(expr: Seq<char>, text: Seq<char>) -> bool;

/// Relies on regex::Regex::new: it fails exactly on the expressions that it
/// rejects, which depend on the expression alone. The pattern is built here,
/// so that its compiled form is always the one built from the expression it
/// records.
#[verifier::external_body]
fn compile(expr: &str) -> (r: Result<Pattern, PatternError>)
    ensures
        r is Ok <==> compiles(expr@),
        r matches Ok(p) ==> p.expr() == expr@,
{
    match regex::Regex::new(expr) {
        Ok(re) => Ok(Pattern { re, expr: Ghost(expr@) }),
        Err(e) => Err(PatternError { cause: e }),
    }
}

/// A regular expression, compiled once and used for many searches.
///
/// The compiled form in `re` is always the one that `regex::Regex::new` built
/// from the expression that `expr` records: `compile` is the only place where
/// a `Pattern` is made, and no verified code writes either field.
pub struct Pattern {
    re: regex::Regex,
    expr: Ghost<Seq<char>>,
}

/// The reason an expression did not compile.
#[derive(Debug)]
pub struct PatternError {
    pub cause: regex::Error,
}

/// Relies on regex::Regex::is_match: true if and only if the regex matches
/// somewhere in `text`.
#[verifier::external_body]
fn regex_is_match(p: &Pattern, text: &str) -> (r: bool)
    ensures
        r == finds_match(p.expr@, text@),
{
    p.re.is_match(text)
}

impl Pattern {
    /// The expression this pattern was compiled from.
    pub closed spec fn expr(&self) -> Seq<char> {
        self.expr@
    }

    /// Whether the pattern matches somewhere in `text` (no anchoring to the
    /// whole line).
    pub fn is_match(&self, text: &str) -> (r: bool)
        ensures
            r == finds_match(self.expr(), text@),
    {
        regex_is_match(self, text)
    }
}

/// Compiles the expression `re`.
pub fn parse_regex(re: &str) -> (r: Result<Pattern, PatternError>)
    ensures
        r is Ok <==> compiles(re@),
        r matches Ok(p) ==> p.expr() == re@,
{
    compile(re)
}

} // verus!
