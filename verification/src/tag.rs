//! Tag injection: attach static or dynamic key-value tags to every log line.

use vstd::prelude::*;
use crate::strmap::StrMap;
use crate::text;

verus! {

/// A set of tags to attach to log records.
#[derive(Debug)]
pub struct Tagger {
    static_tags: StrMap<String>,
    /// If true, a `_source` tag with the filename is injected automatically.
    pub inject_source: bool,
}

/// The JSON member `"key":"value"` that a tag adds.
pub open spec fn tag_member(key: Seq<char>, value: Seq<char>) -> Seq<char> {
    seq!['"'] + key + seq!['"', ':', '"'] + value + seq!['"']
}

/// The members a line is tagged with: the static tags in order, then the
/// source when it is injected and known.
pub open spec fn tag_members(
    tags: Seq<(Seq<char>, Seq<char>)>,
    inject_source: bool,
    source: Option<Seq<char>>,
) -> Seq<Seq<char>> {
    let static_parts = tags.map_values(|t: (Seq<char>, Seq<char>)| tag_member(t.0, t.1));
    if inject_source && source is Some {
        static_parts.push(tag_member("_source"@, source->0))
    } else {
        static_parts
    }
}

/// The line `Tagger::apply` produces.
pub open spec fn tagged_line(
    line: Seq<char>,
    tags: Seq<(Seq<char>, Seq<char>)>,
    inject_source: bool,
    source: Option<Seq<char>>,
) -> Seq<char> {
    let t = text::trim(line);
    let parts = tag_members(tags, inject_source, source);
    if t.len() == 0 || t[0] != '{' || parts.len() == 0 {
        line
    } else {
        text::strip_trailing(text::strip_trailing(t, '}'), ',') + seq![','] + text::join(
            parts,
            seq![','],
        ) + seq!['}']
    }
}

fn member_chars(key: &str, value: &str) -> (v: Vec<char>)
    ensures
        v@ == tag_member(key@, value@),
{
    let mut v: Vec<char> = Vec::new();
    v.push('"');
    text::push_str(&mut v, key);
    v.push('"');
    v.push(':');
    v.push('"');
    text::push_str(&mut v, value);
    v.push('"');
    assert(v@ =~= tag_member(key@, value@));
    v
}

impl Tagger {
    /// The static tags, keys and values by their characters, in order.
    pub closed spec fn tags_view(&self) -> Seq<(Seq<char>, Seq<char>)> {
        crate::strmap::text_pairs(self.static_tags.pairs())
    }

    /// Whether the source is injected.
    pub closed spec fn injects_source(&self) -> bool {
        self.inject_source
    }

    pub fn new(static_tags: StrMap<String>, inject_source: bool) -> (t: Self)
        ensures
            t.tags_view() == crate::strmap::text_pairs(static_tags.pairs()),
            t.injects_source() == inject_source,
    {
        Tagger { static_tags, inject_source }
    }

    /// Apply tags to a JSON object line.  Non-JSON lines are returned unchanged.
    /// Returns the (possibly modified) line.
    pub fn apply(&self, line: &str, source: Option<&str>) -> (r: String)
        ensures
            r@ == tagged_line(
                line@,
                self.tags_view(),
                self.injects_source(),
                match source {
                    Some(s) => Some(s@),
                    None => None,
                },
            ),
    {
        let ghost src = match source {
            Some(s) => Some(s@),
            None => None,
        };
        let cs = text::chars_of(line);
        let (a, b) = text::trim_bounds(cs.as_slice());
        let trimmed = text::slice_chars(cs.as_slice(), a, b);
        // Only attempt to tag JSON objects.
        if trimmed.len() == 0 || trimmed[0] != '{' {
            return line.to_owned();
        }
        let mut parts: Vec<Vec<char>> = Vec::new();
        let ghost tv = self.tags_view();
        let mut i: usize = 0;
        while i < self.static_tags.len()
            invariant
                i <= self.static_tags.pairs().len(),
                tv == self.tags_view(),
                tv.len() == self.static_tags.pairs().len(),
                parts@.map_values(|p: Vec<char>| p@) == tv.take(i as int).map_values(
                    |t: (Seq<char>, Seq<char>)| tag_member(t.0, t.1),
                ),
            decreases self.static_tags.pairs().len() - i,
        {
            assert(tv[i as int] == (self.static_tags.pairs()[i as int].0, self.static_tags.pairs()[i as int].1@));
            let m = member_chars(self.static_tags.key_at(i).as_str(), self.static_tags.value_at(i).as_str());
            let ghost before = parts@.map_values(|p: Vec<char>| p@);
            let ghost mv = m@;
            parts.push(m);
            assert(parts@.map_values(|p: Vec<char>| p@) =~= before.push(mv));
            assert(tv.take(i + 1).map_values(|t: (Seq<char>, Seq<char>)| tag_member(t.0, t.1))
                =~= tv.take(i as int).map_values(|t: (Seq<char>, Seq<char>)| tag_member(t.0, t.1)).push(
                tag_member(tv[i as int].0, tv[i as int].1),
            ));
            i = i + 1;
        }
        assert(tv.take(tv.len() as int) =~= tv);
        if self.inject_source {
            if let Some(s) = source {
                parts.push(member_chars("_source", s));
            }
        }
        assert(parts@.map_values(|p: Vec<char>| p@) =~= tag_members(tv, self.inject_source, src));
        if parts.len() == 0 {
            return line.to_owned();
        }
        // Strip the trailing `}` and append tags.
        let n1 = text::strip_trailing_len(trimmed.as_slice(), '}');
        let body1 = text::slice_chars(trimmed.as_slice(), 0, n1);
        let n2 = text::strip_trailing_len(body1.as_slice(), ',');
        let mut out = text::slice_chars(body1.as_slice(), 0, n2);
        out.push(',');
        let comma: [char; 1] = [','];
        assert(comma@ =~= seq![',']);
        let joined = text::join_chars(&parts, &comma);
        assert(joined@ == text::join(tag_members(tv, self.inject_source, src), seq![',']));
        assert(trimmed@ == text::trim(line@));
        text::push_seq(&mut out, joined.as_slice());
        out.push('}');
        assert(out@ =~= tagged_line(line@, tv, self.inject_source, src));
        text::string_from_chars(out.as_slice())
    }

    pub fn has_tags(&self) -> (b: bool)
        ensures
            b == (self.tags_view().len() > 0 || self.injects_source()),
    {
        !self.static_tags.is_empty() || self.inject_source
    }
}

impl Default for Tagger {
    fn default() -> (t: Self)
        ensures
            t.tags_view().len() == 0,
            !t.injects_source(),
    {
        Tagger { static_tags: StrMap::new(), inject_source: false }
    }
}

} // verus!
