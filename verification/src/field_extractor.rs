//! Field extraction from structured (JSON) and unstructured log lines.

use vstd::prelude::*;
use crate::text;
use crate::strmap::{self, StrMap};
use crate::json::{self, JsonView};
use crate::pattern::{self, Pattern};

verus! {

/// Fields extracted from one log line, next to the line itself.
#[derive(Debug)]
pub struct ExtractedFields {
    pub fields: StrMap<String>,
    pub raw: String,
}

impl ExtractedFields {
    /// No fields yet, for the line `raw`.
    pub fn new(raw: String) -> (r: Self)
        ensures
            r.raw == raw,
            r.fields.pairs() == Seq::<(Seq<char>, String)>::empty(),
            r.fields.wf(),
    {
        ExtractedFields { fields: StrMap::new(), raw }
    }

    /// The value of field `key`.
    pub fn get(&self, key: &str) -> (r: Option<&str>)
        requires
            self.fields.wf(),
        ensures
            match r {
                Some(v) => strmap::has_key(self.fields.pairs(), key@) && v@ == strmap::value_of(
                    self.fields.pairs(),
                    key@,
                )@,
                None => !strmap::has_key(self.fields.pairs(), key@),
            },
    {
        match self.fields.get(key) {
            Some(v) => Some(v.as_str()),
            None => None,
        }
    }
}

/// The pattern that finds `key=value` and `key="quoted value"` pairs.
pub open spec fn kv_source() -> Seq<char> {
    r#"(\w+)=(?:"([^"]*)"|([^\s,]+))"#@
}

/// Group `i` of a match, `None` when it is absent or out of range.
pub open spec fn group(m: Seq<Option<Seq<char>>>, i: int) -> Option<Seq<char>> {
    if 0 <= i < m.len() {
        m[i]
    } else {
        None
    }
}

/// The text of an optional group, empty when absent.
pub open spec fn text_or_empty(g: Option<Seq<char>>) -> Seq<char> {
    match g {
        Some(t) => t,
        None => Seq::empty(),
    }
}

/// The pair one `key=value` match stands for: the key is group 1 (which
/// takes part in every match of `kv_source`), the value the quoted group 2,
/// else the bare group 3.
pub open spec fn kv_entry(m: Seq<Option<Seq<char>>>) -> (Seq<char>, Seq<char>) {
    (
        text_or_empty(group(m, 1)),
        match group(m, 2) {
            Some(v) => v,
            None => text_or_empty(group(m, 3)),
        },
    )
}

/// The members of a JSON object as fields: strings unquoted, every other
/// value as its JSON text.
pub open spec fn json_pairs(members: Seq<(Seq<char>, JsonView)>) -> Seq<(Seq<char>, Seq<char>)> {
    members.map_values(|m: (Seq<char>, JsonView)| (m.0, json::display_text(m.1)))
}

/// The text is a JSON object: after trimming it starts with `{` and parses
/// as an object.
pub open spec fn is_json_line(line: Seq<char>) -> bool {
    let t = text::trim(line);
    t.len() > 0 && t[0] == '{' && json::json_object(t) is Some
}

/// Every `key=value` pair found in the line, in order, a later pair with
/// the same key replacing the value of an earlier one.
pub open spec fn kv_pairs(line: Seq<char>) -> Seq<(Seq<char>, Seq<char>)> {
    if pattern::regex_valid(kv_source()) {
        strmap::inserted_all(
            pattern::regex_captures(kv_source(), line).map_values(
                |m: Seq<Option<Seq<char>>>| kv_entry(m),
            ),
        )
    } else {
        Seq::empty()
    }
}

/// The fields of a line: the members of a JSON object, else its
/// `key=value` pairs.
pub open spec fn extracted_pairs(line: Seq<char>) -> Seq<(Seq<char>, Seq<char>)> {
    if is_json_line(line) {
        strmap::inserted_all(json_pairs(json::json_object(text::trim(line))->0))
    } else {
        kv_pairs(line)
    }
}

/// Extracts fields from a log line: JSON first, then `key=value` pairs.
pub fn extract_fields(line: &str) -> (r: ExtractedFields)
    ensures
        r.raw@ == line@,
        r.fields.wf(),
        strmap::text_pairs(r.fields.pairs()) == extracted_pairs(line@),
{
    let mut result = ExtractedFields::new(line.to_owned());
    match try_extract_json(line) {
        Some(fields) => {
            result.fields = fields;
            return result;
        },
        None => {},
    }
    match try_extract_kv(line) {
        Some(fields) => {
            result.fields = fields;
        },
        None => {
            assert(strmap::text_pairs(result.fields.pairs()) =~= Seq::<
                (Seq<char>, Seq<char>),
            >::empty());
        },
    }
    result
}

fn try_extract_json(line: &str) -> (r: Option<StrMap<String>>)
    ensures
        r is Some <==> is_json_line(line@),
        r matches Some(m) ==> m.wf() && strmap::text_pairs(m.pairs()) == extracted_pairs(line@),
{
    let cs = text::chars_of(line);
    let (a, b) = text::trim_bounds(cs.as_slice());
    if a == b || cs[a] != '{' {
        return None;
    }
    let t = text::string_from_chars(text::slice_chars(cs.as_slice(), a, b).as_slice());
    let members = match json::parse_object(t.as_str()) {
        Some(m) => m,
        None => {
            return None;
        },
    };
    let ghost jp = json_pairs(json::members_view(members@));
    let mut map: StrMap<String> = StrMap::new();
    for i in 0..members.len()
        invariant
            map.wf(),
            jp == json_pairs(json::members_view(members@)),
            jp.len() == members@.len(),
            strmap::text_pairs(map.pairs()) == strmap::inserted_all(jp.take(i as int)),
    {
        let value = json::display_value(&members[i].1);
        let key = members[i].0.clone();
        proof {
            strmap::lemma_text_pairs_insert(map.pairs(), key@, value);
            strmap::lemma_inserted_all_step(jp, i as int);
        }
        map.insert(key, value);
    }
    assert(jp.take(members@.len() as int) =~= jp);
    Some(map)
}

fn group_text(m: &Vec<Option<String>>, i: usize) -> (r: Option<String>)
    ensures
        match r {
            Some(t) => group(m@.map_values(|g: Option<String>| match g {
                Some(s) => Some(s@),
                None => None,
            }), i as int) == Some(t@),
            None => group(m@.map_values(|g: Option<String>| match g {
                Some(s) => Some(s@),
                None => None,
            }), i as int) is None,
        },
{
    if i < m.len() {
        match &m[i] {
            Some(s) => Some(s.clone()),
            None => None,
        }
    } else {
        None
    }
}

fn try_extract_kv(line: &str) -> (r: Option<StrMap<String>>)
    ensures
        match r {
            Some(m) => m.wf() && strmap::text_pairs(m.pairs()) == kv_pairs(line@),
            None => kv_pairs(line@).len() == 0,
        },
{
    let p = match Pattern::new(r#"(\w+)=(?:"([^"]*)"|([^\s,]+))"#) {
        Ok(p) => p,
        Err(_) => {
            return None;
        },
    };
    let caps = p.captures(line);
    let ghost cv = caps@.map_values(|m: Vec<Option<String>>| m@.map_values(|g: Option<String>| match g {
        Some(s) => Some(s@),
        None => None,
    }));
    let ghost kp = cv.map_values(|m: Seq<Option<Seq<char>>>| kv_entry(m));
    let mut map: StrMap<String> = StrMap::new();
    for i in 0..caps.len()
        invariant
            map.wf(),
            kp.len() == caps@.len(),
            cv.len() == caps@.len(),
            forall|j: int| 0 <= j < caps@.len() ==> #[trigger] kp[j] == kv_entry(cv[j]),
            forall|j: int| 0 <= j < caps@.len() ==> #[trigger] cv[j] == caps@[j]@.map_values(
                |g: Option<String>| match g {
                    Some(s) => Some(s@),
                    None => None,
                },
            ),
            strmap::text_pairs(map.pairs()) == strmap::inserted_all(kp.take(i as int)),
    {
        let key = match group_text(&caps[i], 1) {
            Some(k) => k,
            None => String::new(),
        };
        let value = match group_text(&caps[i], 2) {
            Some(v) => v,
            None => match group_text(&caps[i], 3) {
                Some(v) => v,
                None => String::new(),
            },
        };
        assert(kp[i as int] == (key@, value@));
        proof {
            strmap::lemma_text_pairs_insert(map.pairs(), key@, value);
            strmap::lemma_inserted_all_step(kp, i as int);
        }
        map.insert(key, value);
    }
    assert(kp.take(caps@.len() as int) =~= kp);
    if map.is_empty() {
        None
    } else {
        Some(map)
    }
}

} // verus!
