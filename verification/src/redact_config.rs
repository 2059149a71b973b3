//! Configuration of redaction, as read from a configuration file.

use vstd::prelude::*;

verus! {

/// The placeholder used when none is configured.
pub open spec fn default_placeholder_text() -> Seq<char> {
    "[REDACTED]"@
}

/// The placeholder used when none is configured: `[REDACTED]`.
pub fn default_placeholder() -> (s: String)
    ensures
        s@ == default_placeholder_text(),
{
    "[REDACTED]".to_owned()
}

/// What to redact and with what.
#[derive(Debug, Clone)]
pub struct RedactConfig {
    /// Field names whose values are replaced whole.
    pub fields: Vec<String>,
    /// Patterns whose matches in any value are replaced.
    pub patterns: Vec<String>,
    /// The replacement text.
    pub placeholder: String,
}

impl Default for RedactConfig {
    fn default() -> (c: Self)
        ensures
            c.fields@.len() == 0,
            c.patterns@.len() == 0,
            c.placeholder@ == default_placeholder_text(),
    {
        RedactConfig { fields: Vec::new(), patterns: Vec::new(), placeholder: default_placeholder() }
    }
}

impl RedactConfig {
    /// True when there is neither a field nor a pattern to redact.
    pub fn is_empty(&self) -> (b: bool)
        ensures
            b == (self.fields@.len() == 0 && self.patterns@.len() == 0),
    {
        self.fields.len() == 0 && self.patterns.len() == 0
    }
}

} // verus!
