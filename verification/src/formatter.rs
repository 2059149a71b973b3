//! Rendering of output lines: raw, as JSON, or as selected columns, with
//! optional highlighting of a search term.

use vstd::prelude::*;
use crate::text;
use crate::strmap::{self, StrMap};
use crate::json::{self, JsonValue, JsonView};

verus! {

/// How output lines are rendered.
#[derive(Debug, Clone, PartialEq)]
pub enum OutputFormat {
    Raw,
    Json,
    Fields(Vec<String>),
}

/// The fields of a record, values by their views.
pub open spec fn field_views(fields: Seq<(Seq<char>, JsonValue)>) -> Seq<(Seq<char>, JsonView)> {
    strmap::map_entries(fields, |v: JsonValue| v@)
}

/// The shown text of each of `keys` that names a field, in the order of `keys`.
pub open spec fn columns(keys: Seq<Seq<char>>, fields: Seq<(Seq<char>, JsonView)>) -> Seq<Seq<char>>
    decreases keys.len(),
{
    if keys.len() == 0 {
        Seq::empty()
    } else if strmap::has_key(fields, keys.last()) {
        columns(keys.drop_last(), fields).push(json::display_text(strmap::value_of(fields, keys.last())))
    } else {
        columns(keys.drop_last(), fields)
    }
}

/// The line a format renders, or `None` when a column format finds none of
/// its fields.
pub open spec fn rendered(format: OutputFormat, raw: Seq<char>, fields: Seq<(Seq<char>, JsonView)>) -> Option<
    Seq<char>,
> {
    match format {
        OutputFormat::Raw => Some(raw),
        OutputFormat::Json => if fields.len() == 0 {
            Some(raw)
        } else {
            Some(json::object_text(fields))
        },
        OutputFormat::Fields(keys) => {
            let parts = columns(keys@.map_values(|k: String| k@), fields);
            if parts.len() == 0 {
                None
            } else {
                Some(text::join(parts, seq!['\t']))
            }
        },
    }
}

/// A term wrapped in the ANSI codes for bold yellow.
pub open spec fn marked(term: Seq<char>) -> Seq<char> {
    seq!['\u{1b}', '[', '1', ';', '3', '3', 'm'] + term + seq!['\u{1b}', '[', '0', 'm']
}

/// Renders log lines for output.
pub struct Formatter {
    format: OutputFormat,
    color: bool,
}

impl Formatter {
    /// The output format.
    pub closed spec fn format_spec(&self) -> OutputFormat {
        self.format
    }

    /// Whether highlighting is on.
    pub closed spec fn color_spec(&self) -> bool {
        self.color
    }

    /// A formatter for `format`, highlighting when `color` is set.
    pub fn new(format: OutputFormat, color: bool) -> (f: Self)
        ensures
            f.format_spec() == format,
            f.color_spec() == color,
    {
        Formatter { format, color }
    }

    /// Renders one line with its fields.
    pub fn format_line(&self, raw: &str, fields: &StrMap<JsonValue>) -> (r: Option<String>)
        requires
            fields.wf(),
        ensures
            match r {
                Some(s) => rendered(self.format_spec(), raw@, field_views(fields.pairs())) == Some(s@),
                None => rendered(self.format_spec(), raw@, field_views(fields.pairs())) is None,
            },
    {
        let ghost fv = field_views(fields.pairs());
        proof {
            strmap::lemma_map_entries_keys(fields.pairs(), |v: JsonValue| v@, Seq::empty());
        }
        match &self.format {
            OutputFormat::Raw => Some(raw.to_owned()),
            OutputFormat::Json => {
                if fields.is_empty() {
                    Some(raw.to_owned())
                } else {
                    let out = object_chars(fields);
                    Some(text::string_from_chars(out.as_slice()))
                }
            },
            OutputFormat::Fields(keys) => {
                let ghost kv = keys@.map_values(|k: String| k@);
                let mut parts: Vec<Vec<char>> = Vec::new();
                assert(kv.take(0) =~= Seq::<Seq<char>>::empty());
                for i in 0..keys.len()
                    invariant
                        fields.wf(),
                        fv == field_views(fields.pairs()),
                        kv == keys@.map_values(|k: String| k@),
                        parts@.map_values(|p: Vec<char>| p@) == columns(kv.take(i as int), fv),
                {
                    assert(kv.take(i + 1).drop_last() =~= kv.take(i as int));
                    assert(kv[i as int] == keys@[i as int]@);
                    proof {
                        strmap::lemma_map_entries_keys(fields.pairs(), |v: JsonValue| v@, keys@[i as int]@);
                    }
                    let ghost before = parts@.map_values(|p: Vec<char>| p@);
                    match fields.get(keys[i].as_str()) {
                        Some(v) => {
                            let shown = json::display_value(v);
                            parts.push(text::chars_of(shown.as_str()));
                            assert(parts@.map_values(|p: Vec<char>| p@) =~= before.push(shown@));
                        },
                        None => {},
                    }
                }
                assert(kv.take(keys@.len() as int) =~= kv);
                if parts.len() == 0 {
                    None
                } else {
                    let mut sep: Vec<char> = Vec::new();
                    sep.push('\t');
                    assert(sep@ =~= seq!['\t']);
                    let out = text::join_chars(&parts, sep.as_slice());
                    Some(text::string_from_chars(out.as_slice()))
                }
            },
        }
    }

    /// `line` with every occurrence of `term` highlighted, when colour is on
    /// and the term is not empty.
    pub fn highlight(&self, line: &str, term: &str) -> (s: String)
        ensures
            s@ == if !self.color_spec() || term@.len() == 0 {
                line@
            } else {
                text::replace(line@, term@, marked(term@))
            },
    {
        if !self.color || term.is_empty() {
            return line.to_owned();
        }
        let mut m: Vec<char> = Vec::new();
        m.push('\u{1b}');
        m.push('[');
        m.push('1');
        m.push(';');
        m.push('3');
        m.push('3');
        m.push('m');
        text::push_str(&mut m, term);
        m.push('\u{1b}');
        m.push('[');
        m.push('0');
        m.push('m');
        assert(m@ =~= marked(term@));
        let rep = text::string_from_chars(m.as_slice());
        text::replace_str(line, term, rep.as_str())
    }
}

/// The compact JSON object text of a record.
fn object_chars(fields: &StrMap<JsonValue>) -> (out: Vec<char>)
    ensures
        out@ == json::object_text(field_views(fields.pairs())),
{
    let ghost fv = field_views(fields.pairs());
    let mut parts: Vec<Vec<char>> = Vec::new();
    let n = fields.len();
    for i in 0..n
        invariant
            n == fields.pairs().len(),
            fv == field_views(fields.pairs()),
            fv.len() == n,
            parts@.len() == i,
            forall|j: int| 0 <= j < i ==> (#[trigger] parts@[j])@ == json::member_text(fv[j]),
    {
        let mut part: Vec<char> = Vec::new();
        json::push_json_string(&mut part, fields.key_at(i).as_str());
        part.push(':');
        json::push_json_value(&mut part, fields.value_at(i));
        assert(fv[i as int] == (fields.pairs()[i as int].0, fields.pairs()[i as int].1@));
        assert(part@ =~= json::member_text(fv[i as int]));
        parts.push(part);
    }
    let mut sep: Vec<char> = Vec::new();
    sep.push(',');
    assert(sep@ =~= seq![',']);
    let body = text::join_chars(&parts, sep.as_slice());
    assert(parts@.map_values(|p: Vec<char>| p@) =~= fv.map_values(
        |m: (Seq<char>, JsonView)| json::member_text(m),
    ));
    let mut out: Vec<char> = Vec::new();
    out.push('{');
    text::push_seq(&mut out, body.as_slice());
    out.push('}');
    assert(out@ =~= json::object_text(fv));
    out
}

} // verus!
