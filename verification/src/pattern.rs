//! Compiled regular expressions.
//!
//! Matching is done by the `regex` crate. A `Pattern` keeps the source text
//! next to the compiled expression, and every result of the crate is named as
//! a function of that source text and of the input it was applied to.

use vstd::prelude::*;

verus! {

#[verifier::external_type_specification]
#[verifier::external_body]
pub struct ExRegex(regex::Regex);

/// `regex::Regex::new` accepts the pattern source.
pub uninterp spec fn regex_valid(source: Seq<char>) -> bool;

/// `regex::Regex::is_match` for the pattern compiled from `source`.
pub uninterp spec fn regex_is_match(source: Seq<char>, text: Seq<char>) -> bool;

/// `regex::Regex::replace_all` for the pattern compiled from `source`.
pub uninterp spec fn regex_replace_all(source: Seq<char>, text: Seq<char>, rep: Seq<char>) -> Seq<char>;

/// `regex::Regex::captures_iter` for the pattern compiled from `source`:
/// for each match, in order, its capture groups (group 0 first), absent
/// groups as `None`.
pub uninterp spec fn regex_captures(source: Seq<char>, text: Seq<char>) -> Seq<Seq<Option<Seq<char>>>>;

/// Why a pattern was rejected.
#[derive(Debug)]
pub struct PatternError {
    /// The message the regex compiler gave.
    pub message: String,
}

/// A regular expression together with the text it was compiled from.
#[derive(Debug)]
pub struct Pattern {
    source: String,
    compiled: regex::Regex,
}

/// Trusted: `regex::Regex::new`; succeeds exactly on the sources named valid,
/// and hands back the compiler's message otherwise.
#[verifier::external_body]
fn compile(source: &str) -> (r: Result<regex::Regex, String>)
    ensures
        r is Ok <==> regex_valid(source@),
{
    regex::Regex::new(source).map_err(|e| e.to_string())
}

/// Trusted: `regex::Regex::clone`; the copy shares the compiled program, so
/// it matches as the original does. The expression is opaque here, so
/// nothing is claimed of it in a clause.
#[verifier::external_body]
fn clone_regex(r: &regex::Regex) -> regex::Regex {
    r.clone()
}

/// Trusted: `regex::Regex::is_match` on the expression compiled from the
/// pattern's source.
#[verifier::external_body]
fn run_is_match(p: &Pattern, text: &str) -> (r: bool)
    ensures
        r == regex_is_match(p.source_view(), text@),
{
    p.compiled.is_match(text)
}

/// Trusted: `regex::Regex::replace_all` on the expression compiled from the
/// pattern's source.
#[verifier::external_body]
fn run_replace_all(p: &Pattern, text: &str, rep: &str) -> (r: String)
    ensures
        r@ == regex_replace_all(p.source_view(), text@, rep@),
{
    p.compiled.replace_all(text, rep).into_owned()
}

/// Trusted: `regex::Regex::captures_iter` on the expression compiled from the
/// pattern's source, each match given as the list of its groups.
#[verifier::external_body]
fn run_captures(p: &Pattern, text: &str) -> (r: Vec<Vec<Option<String>>>)
    ensures
        r@.map_values(|m: Vec<Option<String>>| m@.map_values(|g: Option<String>| match g {
            Some(s) => Some(s@),
            None => None,
        })) == regex_captures(p.source_view(), text@),
{
    p.compiled.captures_iter(text).map(|c| c.iter().map(|g| g.map(|m| m.as_str().to_string())).collect()).collect()
}

impl Clone for Pattern {
    /// The same pattern: its source and a copy of the expression compiled
    /// from it.
    fn clone(&self) -> (c: Self)
        ensures
            c.source_view() == self.source_view(),
    {
        Pattern { source: self.source.clone(), compiled: clone_regex(&self.compiled) }
    }
}

impl Pattern {
    /// The source text of the pattern.
    pub closed spec fn source_view(&self) -> Seq<char> {
        self.source@
    }

    /// Compiles `source`.
    pub fn new(source: &str) -> (r: Result<Pattern, PatternError>)
        ensures
            r is Ok <==> regex_valid(source@),
            r matches Ok(p) ==> p.source_view() == source@,
    {
        match compile(source) {
            Ok(compiled) => Ok(Pattern { source: source.to_owned(), compiled }),
            Err(message) => Err(PatternError { message }),
        }
    }

    /// The source text of the pattern.
    pub fn as_str(&self) -> (s: &str)
        ensures
            s@ == self.source_view(),
    {
        self.source.as_str()
    }

    /// Whether the pattern matches somewhere in `text`.
    pub fn is_match(&self, text: &str) -> (r: bool)
        ensures
            r == regex_is_match(self.source_view(), text@),
    {
        run_is_match(self, text)
    }

    /// `text` with every match replaced by `rep`.
    pub fn replace_all(&self, text: &str, rep: &str) -> (r: String)
        ensures
            r@ == regex_replace_all(self.source_view(), text@, rep@),
    {
        run_replace_all(self, text, rep)
    }

    /// The capture groups of each match in `text`, in order.
    pub fn captures(&self, text: &str) -> (r: Vec<Vec<Option<String>>>)
        ensures
            r@.map_values(|m: Vec<Option<String>>| m@.map_values(|g: Option<String>| match g {
                Some(s) => Some(s@),
                None => None,
            })) == regex_captures(self.source_view(), text@),
    {
        run_captures(self, text)
    }
}

} // verus!
