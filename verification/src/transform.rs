//! Line transformation: find-and-replace, regex substitution, case change
//! and trimming, applied in order.

use vstd::prelude::*;
use crate::text;
use crate::pattern::{self, Pattern};

verus! {

/// What `str::to_uppercase` gives for a text (Unicode case mapping).
pub uninterp spec fn uppercase(s: Seq<char>) -> Seq<char>;

/// What `str::to_lowercase` gives for a text (Unicode case mapping).
pub uninterp spec fn lowercase(s: Seq<char>) -> Seq<char>;

/// Trusted: `str::to_uppercase`; the result is named `uppercase`.
#[verifier::external_body]
fn to_upper(s: &str) -> (r: String)
    ensures
        r@ == uppercase(s@),
{
    s.to_uppercase()
}

/// Trusted: `str::to_lowercase`; the result is named `lowercase`.
#[verifier::external_body]
fn to_lower(s: &str) -> (r: String)
    ensures
        r@ == lowercase(s@),
{
    s.to_lowercase()
}

/// One transformation.
#[derive(Debug)]
pub enum TransformRule {
    Replace { from: String, to: String },
    RegexReplace { pattern: Pattern, replacement: String },
    Uppercase,
    Lowercase,
    Trim,
}

/// A rule by plain values.
pub enum RuleView {
    Replace(Seq<char>, Seq<char>),
    RegexReplace(Seq<char>, Seq<char>),
    Uppercase,
    Lowercase,
    Trim,
}

/// The view of a rule.
pub open spec fn rule_view(r: TransformRule) -> RuleView {
    match r {
        TransformRule::Replace { from, to } => RuleView::Replace(from@, to@),
        TransformRule::RegexReplace { pattern, replacement } => RuleView::RegexReplace(
            pattern.source_view(),
            replacement@,
        ),
        TransformRule::Uppercase => RuleView::Uppercase,
        TransformRule::Lowercase => RuleView::Lowercase,
        TransformRule::Trim => RuleView::Trim,
    }
}

/// The line after one rule.
pub open spec fn applied(line: Seq<char>, rule: RuleView) -> Seq<char> {
    match rule {
        RuleView::Replace(from, to) => text::replace(line, from, to),
        RuleView::RegexReplace(src, rep) => pattern::regex_replace_all(src, line, rep),
        RuleView::Uppercase => uppercase(line),
        RuleView::Lowercase => lowercase(line),
        RuleView::Trim => text::trim(line),
    }
}

/// The line after the rules, in order.
pub open spec fn transformed(line: Seq<char>, rules: Seq<RuleView>) -> Seq<char>
    decreases rules.len(),
{
    if rules.len() == 0 {
        line
    } else {
        applied(transformed(line, rules.drop_last()), rules.last())
    }
}

/// `s` without leading and trailing white space.
pub fn trim_str(s: &str) -> (r: String)
    ensures
        r@ == text::trim(s@),
{
    let cs = text::chars_of(s);
    let (a, b) = text::trim_bounds(cs.as_slice());
    text::string_from_chars(text::slice_chars(cs.as_slice(), a, b).as_slice())
}

fn apply_rule(line: &str, rule: &TransformRule) -> (r: String)
    ensures
        r@ == applied(line@, rule_view(*rule)),
{
    match rule {
        TransformRule::Replace { from, to } => text::replace_str(line, from.as_str(), to.as_str()),
        TransformRule::RegexReplace { pattern, replacement } => pattern.replace_all(
            line,
            replacement.as_str(),
        ),
        TransformRule::Uppercase => to_upper(line),
        TransformRule::Lowercase => to_lower(line),
        TransformRule::Trim => trim_str(line),
    }
}

/// Applies a list of rules to lines.
#[derive(Debug)]
pub struct LineTransformer {
    rules: Vec<TransformRule>,
}

impl LineTransformer {
    /// The rules, in order.
    pub closed spec fn rules_view(&self) -> Seq<RuleView> {
        self.rules@.map_values(|r: TransformRule| rule_view(r))
    }

    /// A transformer applying `rules` in order.
    pub fn new(rules: Vec<TransformRule>) -> (t: Self)
        ensures
            t.rules_view() == rules@.map_values(|r: TransformRule| rule_view(r)),
    {
        LineTransformer { rules }
    }

    /// The line after every rule, in order.
    pub fn transform(&self, line: &str) -> (r: String)
        ensures
            r@ == transformed(line@, self.rules_view()),
    {
        let ghost rv = self.rules_view();
        let mut result = line.to_owned();
        assert(rv.take(0) =~= Seq::<RuleView>::empty());
        for i in 0..self.rules.len()
            invariant
                rv == self.rules_view(),
                result@ == transformed(line@, rv.take(i as int)),
        {
            assert(rv.take(i + 1).drop_last() =~= rv.take(i as int));
            assert(rv[i as int] == rule_view(self.rules@[i as int]));
            result = apply_rule(result.as_str(), &self.rules[i]);
        }
        assert(rv.take(self.rules@.len() as int) =~= rv);
        result
    }

    /// True when there are no rules.
    pub fn is_empty(&self) -> (b: bool)
        ensures
            b == (self.rules_view().len() == 0),
    {
        self.rules.len() == 0
    }
}

impl Default for LineTransformer {
    fn default() -> (t: Self)
        ensures
            t.rules_view() == Seq::<RuleView>::empty(),
    {
        let t = LineTransformer::new(Vec::new());
        assert(t.rules_view() =~= Seq::<RuleView>::empty());
        t
    }
}

} // verus!
