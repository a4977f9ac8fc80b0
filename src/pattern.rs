//! Regular expressions, compiled once and applied to message text.

use regex::Regex;
use vstd::prelude::*;

use crate::compression::all_tables;

verus! {

#[verifier::external_type_specification]
#[verifier::external_body]
pub struct ExRegex(Regex);

#[verifier::external_type_specification]
#[verifier::external_body]
pub struct ExRegexError(regex::Error);

/// Whether the regular expression `pattern` matches somewhere in `text`.
pub uninterp spec fn regex_finds(pattern: Seq<char>, text: Seq<char>) -> bool;

/// `text` with every match of the regular expression `pattern` removed, scanning
/// from left to right for non-overlapping matches.
pub uninterp spec fn regex_erased(pattern: Seq<char>, text: Seq<char>) -> Seq<char>;

/// A regular expression compiled from `source`.
pub struct Pattern {
    source: String,
    compiled: Regex,
}

/// A pattern that does not compile.
#[derive(Debug)]
pub struct PatternError {
    pub source: String,
}

impl View for Pattern {
    type V = Seq<char>;

    /// The pattern text the expression was compiled from.
    closed spec fn view(&self) -> Seq<char> {
        self.source@
    }
}

/// Relies on `regex::Regex::new`: compiles `source`, or reports that it is not a
/// valid expression (or too large). The fixed patterns of the noise filter are
/// valid and small, so they compile.
#[verifier::external_body]
fn compile_regex(source: &str) -> (r: Result<Regex, regex::Error>)
    ensures
        all_tables().contains(source@) ==> r is Ok,
{
    Regex::new(source)
}

/// Relies on `regex::Regex::is_match`: whether the expression matches anywhere in
/// `text`. `p.compiled` is the compilation of `p.source`: `Pattern::compile` is the
/// only place that builds a `Pattern`.
#[verifier::external_body]
fn regex_is_match(p: &Pattern, text: &str) -> (r: bool)
    ensures
        r == regex_finds(p@, text@),
{
    p.compiled.is_match(text)
}

/// Relies on `regex::Regex::replace_all` with an empty replacement: `text` with
/// every non-overlapping match removed. `p.compiled` is the compilation of
/// `p.source`, as for `regex_is_match`.
#[verifier::external_body]
fn regex_remove_all(p: &Pattern, text: &str) -> (r: String)
    ensures
        r@ == regex_erased(p@, text@),
{
    p.compiled.replace_all(text, "").into_owned()
}

impl Pattern {
    /// Compiles `source`; the error names the pattern that does not compile.
    pub fn compile(source: &str) -> (r: Result<Pattern, PatternError>)
        ensures
            match r {
                Ok(p) => p@ == source@,
                Err(e) => e.source@ == source@,
            },
            all_tables().contains(source@) ==> r is Ok,
    {
        match compile_regex(source) {
            Ok(compiled) => Ok(Pattern { source: source.to_owned(), compiled }),
            Err(_) => Err(PatternError { source: source.to_owned() }),
        }
    }

    /// Whether the pattern matches somewhere in `text`.
    pub fn is_match(&self, text: &str) -> (r: bool)
        ensures
            r == regex_finds(self@, text@),
    {
        regex_is_match(self, text)
    }

    /// `text` with every match of the pattern removed.
    pub fn remove_all(&self, text: &str) -> (r: String)
        ensures
            r@ == regex_erased(self@, text@),
    {
        regex_remove_all(self, text)
    }
}

/// Compiles each of `sources`, in order; the error names the first that does not compile.
pub fn compile_all(sources: &Vec<&str>) -> (r: Result<Vec<Pattern>, PatternError>)
    ensures
        match r {
            Ok(ps) => ps@.len() == sources@.len() && forall|i: int|
                0 <= i < ps@.len() ==> #[trigger] ps@[i]@ == sources@[i]@,
            Err(e) => exists|i: int| 0 <= i < sources@.len() && e.source@ == sources@[i]@,
        },
        (forall|i: int| 0 <= i < sources@.len() ==> all_tables().contains(#[trigger] sources@[i]@))
            ==> r is Ok,
{
    let mut ps: Vec<Pattern> = Vec::new();
    for i in 0..sources.len()
        invariant
            ps@.len() == i,
            forall|j: int| 0 <= j < i ==> #[trigger] ps@[j]@ == sources@[j]@,
    {
        match Pattern::compile(sources[i]) {
            Ok(p) => ps.push(p),
            Err(e) => return Err(e),
        }
    }
    Ok(ps)
}

} // verus!
