//! Field redaction for sensitive log data: whole fields by name, and
//! substrings of values by pattern, replaced with a placeholder.

use vstd::prelude::*;
use crate::text;
use crate::pattern::{self, Pattern, PatternError};

verus! {

/// One redaction rule.
#[derive(Debug, Clone)]
pub enum RedactRule {
    /// Redact every field whose name is one of these.
    FieldName(Vec<String>),
    /// Redact the substrings of values that match this pattern.
    Pattern(Pattern),
}

/// A rule by plain values: field names, or a pattern's source.
pub enum RuleView {
    FieldName(Seq<Seq<char>>),
    Pattern(Seq<char>),
}

/// The view of a rule.
pub open spec fn rule_view(r: RedactRule) -> RuleView {
    match r {
        RedactRule::FieldName(names) => RuleView::FieldName(names@.map_values(|n: String| n@)),
        RedactRule::Pattern(p) => RuleView::Pattern(p.source_view()),
    }
}

/// `value` after every pattern rule, in order, replaced each match with
/// `placeholder`.
pub open spec fn redacted(rules: Seq<RuleView>, value: Seq<char>, placeholder: Seq<char>) -> Seq<char>
    decreases rules.len(),
{
    if rules.len() == 0 {
        value
    } else {
        let before = redacted(rules.drop_last(), value, placeholder);
        match rules.last() {
            RuleView::Pattern(src) => pattern::regex_replace_all(src, before, placeholder),
            RuleView::FieldName(_) => before,
        }
    }
}

/// The rule is a name rule that lists `field`.
pub open spec fn lists(rule: RuleView, field: Seq<char>) -> bool {
    match rule {
        RuleView::FieldName(names) => names.contains(field),
        RuleView::Pattern(_) => false,
    }
}

/// Some name rule lists `field`.
pub open spec fn names_field(rules: Seq<RuleView>, field: Seq<char>) -> bool {
    exists|i: int| 0 <= i < rules.len() && lists(#[trigger] rules[i], field)
}

/// Applies redaction rules to field values.
#[derive(Debug, Clone)]
pub struct Redactor {
    rules: Vec<RedactRule>,
    placeholder: String,
}

impl Redactor {
    /// The rules, in order.
    pub closed spec fn rules_view(&self) -> Seq<RuleView> {
        self.rules@.map_values(|r: RedactRule| rule_view(r))
    }

    /// The replacement text.
    pub closed spec fn placeholder_view(&self) -> Seq<char> {
        self.placeholder@
    }

    /// A redactor without rules.
    pub fn new(placeholder: &str) -> (r: Self)
        ensures
            r.rules_view() == Seq::<RuleView>::empty(),
            r.placeholder_view() == placeholder@,
    {
        let r = Redactor { rules: Vec::new(), placeholder: placeholder.to_owned() };
        assert(r.rules_view() =~= Seq::<RuleView>::empty());
        r
    }

    /// Adds a rule that redacts the named fields.
    pub fn add_field_names(&mut self, names: &[&str])
        ensures
            final(self).placeholder_view() == old(self).placeholder_view(),
            final(self).rules_view() == old(self).rules_view().push(
                RuleView::FieldName(names@.map_values(|n: &str| n@)),
            ),
    {
        let mut set: Vec<String> = Vec::new();
        for i in 0..names.len()
            invariant
                set@.len() == i,
                forall|j: int| 0 <= j < i ==> (#[trigger] set@[j])@ == names@[j]@,
        {
            set.push(names[i].to_owned());
        }
        assert(set@.map_values(|n: String| n@) =~= names@.map_values(|n: &str| n@));
        let ghost before = self.rules_view();
        self.rules.push(RedactRule::FieldName(set));
        assert(self.rules_view() =~= before.push(RuleView::FieldName(names@.map_values(|n: &str| n@))));
    }

    /// Adds a rule that redacts what `pattern` matches; fails when the
    /// pattern does not compile.
    pub fn add_pattern(&mut self, pattern: &str) -> (r: Result<(), PatternError>)
        ensures
            r is Ok <==> pattern::regex_valid(pattern@),
            final(self).placeholder_view() == old(self).placeholder_view(),
            r is Ok ==> final(self).rules_view() == old(self).rules_view().push(RuleView::Pattern(pattern@)),
            r is Err ==> final(self).rules_view() == old(self).rules_view(),
    {
        match Pattern::new(pattern) {
            Ok(p) => {
                let ghost before = self.rules_view();
                self.rules.push(RedactRule::Pattern(p));
                assert(self.rules_view() =~= before.push(RuleView::Pattern(pattern@)));
                Ok(())
            },
            Err(e) => Err(e),
        }
    }

    /// `value` with every match of each pattern rule replaced by the
    /// placeholder.
    pub fn redact_value(&self, value: &str) -> (s: String)
        ensures
            s@ == redacted(self.rules_view(), value@, self.placeholder_view()),
    {
        let ghost rv = self.rules_view();
        let mut result = value.to_owned();
        assert(rv.take(0) =~= Seq::<RuleView>::empty());
        for i in 0..self.rules.len()
            invariant
                rv == self.rules_view(),
                result@ == redacted(rv.take(i as int), value@, self.placeholder_view()),
        {
            assert(rv.take(i + 1).drop_last() =~= rv.take(i as int));
            assert(rv[i as int] == rule_view(self.rules@[i as int]));
            match &self.rules[i] {
                RedactRule::Pattern(p) => {
                    result = p.replace_all(result.as_str(), self.placeholder.as_str());
                },
                RedactRule::FieldName(_) => {},
            }
        }
        assert(rv.take(self.rules@.len() as int) =~= rv);
        result
    }

    /// Whether some name rule lists `field`.
    pub fn should_redact_field(&self, field: &str) -> (b: bool)
        ensures
            b == names_field(self.rules_view(), field@),
    {
        let ghost rv = self.rules_view();
        let mut i: usize = 0;
        while i < self.rules.len()
            invariant
                i <= self.rules@.len(),
                rv == self.rules_view(),
                forall|j: int| 0 <= j < i ==> !lists(#[trigger] rv[j], field@),
            decreases self.rules@.len() - i,
        {
            assert(rv[i as int] == rule_view(self.rules@[i as int]));
            match &self.rules[i] {
                RedactRule::FieldName(names) => {
                    let mut k: usize = 0;
                    while k < names.len()
                        invariant
                            k <= names@.len(),
                            i < self.rules@.len(),
                            rv == self.rules_view(),
                            rv[i as int] == RuleView::FieldName(names@.map_values(|n: String| n@)),
                            forall|j: int| 0 <= j < k ==> names@[j]@ != field@,
                        decreases names@.len() - k,
                    {
                        if text::str_eq(names[k].as_str(), field) {
                            assert(names@.map_values(|n: String| n@)[k as int] == field@);
                            assert(lists(rv[i as int], field@));
                            return true;
                        }
                        k = k + 1;
                    }
                    let ghost nv = names@.map_values(|n: String| n@);
                    assert(!nv.contains(field@)) by {
                        if nv.contains(field@) {
                            let j = choose|j: int| 0 <= j < nv.len() && nv[j] == field@;
                            assert(names@[j]@ == field@);
                        }
                    }
                },
                RedactRule::Pattern(_) => {},
            }
            i = i + 1;
        }
        false
    }

    /// The value to show for field `key`: the placeholder for a redacted
    /// field, else the value with its patterns redacted.
    pub fn redact_field(&self, key: &str, value: &str) -> (s: String)
        ensures
            s@ == if names_field(self.rules_view(), key@) {
                self.placeholder_view()
            } else {
                redacted(self.rules_view(), value@, self.placeholder_view())
            },
    {
        if self.should_redact_field(key) {
            self.placeholder.clone()
        } else {
            self.redact_value(value)
        }
    }

    /// The replacement text.
    pub fn placeholder(&self) -> (s: &str)
        ensures
            s@ == self.placeholder_view(),
    {
        self.placeholder.as_str()
    }
}

} // verus!
