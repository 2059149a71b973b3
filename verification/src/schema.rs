//! Schema inference for structured log fields.
//!
//! Inspects a sample of JSON log lines and infers a type for each field
//! (boolean, integer, float, timestamp or string), whether it was ever null,
//! and how often it was seen.

use vstd::prelude::*;
use crate::text;
use crate::truncate::utf8;
use crate::strmap::{self, StrMap};
use crate::json::{self, JsonValue, JsonView};

verus! {

/// The type inferred for a field.
#[derive(Debug, Clone, Copy, PartialEq, Eq, Structural)]
pub enum FieldType {
    Boolean,
    Integer,
    Float,
    Timestamp,
    String,
    Unknown,
}

/// What was learnt about one field.
#[derive(Debug)]
pub struct FieldSchema {
    pub name: String,
    pub inferred_type: FieldType,
    pub nullable: bool,
    pub sample_count: usize,
}

/// A `FieldSchema` with its name by its characters.
pub struct FieldInfo {
    pub name: Seq<char>,
    pub inferred_type: FieldType,
    pub nullable: bool,
    pub sample_count: nat,
}

impl View for FieldSchema {
    type V = FieldInfo;

    open spec fn view(&self) -> FieldInfo {
        FieldInfo {
            name: self.name@,
            inferred_type: self.inferred_type,
            nullable: self.nullable,
            sample_count: self.sample_count as nat,
        }
    }
}

/// The view of a field schema.
pub open spec fn info_of(f: FieldSchema) -> FieldInfo {
    f@
}

/// The text holds `c`.
pub open spec fn has(s: Seq<char>, c: char) -> bool {
    s.contains(c)
}

/// The first checks of the timestamp heuristic: at least 19 bytes, a `T`,
/// and a `Z`, `+` or `-`.
pub open spec fn timestamp_shape(s: Seq<char>) -> bool {
    utf8(s).len() >= 19 && has(s, 'T') && (has(s, 'Z') || has(s, '+') || has(s, '-'))
}

/// The heuristic reads the first four bytes as text, which needs a char
/// boundary at byte 4 once the shape checks pass.
pub open spec fn timestamp_checkable(s: Seq<char>) -> bool {
    timestamp_shape(s) ==> vstd::utf8::is_char_boundary(utf8(s), 4)
}

/// ISO 8601 / RFC 3339 look: the shape checks, and four ASCII digits first.
pub open spec fn timestamp_like(s: Seq<char>) -> bool {
    timestamp_shape(s) && forall|i: int| 0 <= i < 4 ==> 48 <= #[trigger] utf8(s)[i] <= 57
}

/// The type a JSON value suggests.
pub open spec fn type_of(v: JsonView) -> FieldType {
    match v {
        JsonView::Bool(_) => FieldType::Boolean,
        JsonView::Number(_, is_f64, is_i64, is_u64) => if is_f64 && !is_i64 && !is_u64 {
            FieldType::Float
        } else {
            FieldType::Integer
        },
        JsonView::Str(s) => if timestamp_like(s) {
            FieldType::Timestamp
        } else {
            FieldType::String
        },
        JsonView::Null => FieldType::Unknown,
        _ => FieldType::String,
    }
}

/// A string value is typed `Timestamp` exactly when it has at least 19
/// bytes, its first four bytes are ASCII digits, and it holds a `T` and one
/// of `Z`, `+` or `-` (so a date-time with a negative offset, or with no
/// zone after a `yyyy-mm-dd` date, counts); every other string is typed
/// `String`.
pub proof fn lemma_string_value_type(s: Seq<char>)
    ensures
        type_of(JsonView::Str(s)) == (if utf8(s).len() >= 19 && s.contains('T') && (s.contains('Z')
            || s.contains('+') || s.contains('-')) && (forall|i: int|
            0 <= i < 4 ==> 48 <= #[trigger] utf8(s)[i] <= 57) {
            FieldType::Timestamp
        } else {
            FieldType::String
        }),
{
}

/// The value can be typed: a string value passes the timestamp check's
/// boundary requirement.
pub open spec fn value_checkable(v: JsonView) -> bool {
    match v {
        JsonView::Str(s) => timestamp_checkable(s),
        _ => true,
    }
}

/// Every member value of a JSON line can be typed (lines that are not JSON
/// objects are skipped, so they always can).
pub open spec fn line_checkable(line: Seq<char>) -> bool {
    match json::json_object(line) {
        Some(ms) => forall|i: int| 0 <= i < ms.len() ==> value_checkable(#[trigger] ms[i].1),
        None => true,
    }
}

/// The field after one more value `v` was seen under `key`.
pub open spec fn observed(old_info: Option<FieldInfo>, key: Seq<char>, v: JsonView) -> FieldInfo {
    let ft = type_of(v);
    let base = match old_info {
        Some(f) => f,
        None => FieldInfo {
            name: key,
            inferred_type: ft,
            nullable: v is Null,
            sample_count: 0,
        },
    };
    FieldInfo {
        name: base.name,
        inferred_type: if base.inferred_type != ft && ft != FieldType::Unknown {
            FieldType::String
        } else {
            base.inferred_type
        },
        nullable: base.nullable || v is Null,
        sample_count: base.sample_count + 1,
    }
}

/// The fields after seeing value `v` under `key`.
pub open spec fn observe(fields: Seq<(Seq<char>, FieldInfo)>, key: Seq<char>, v: JsonView) -> Seq<
    (Seq<char>, FieldInfo),
> {
    let old_info = if strmap::has_key(fields, key) {
        Some(strmap::value_of(fields, key))
    } else {
        None
    };
    strmap::pairs_insert(fields, key, observed(old_info, key, v))
}

/// The fields after seeing the members `ms` of one object, in order.
pub open spec fn observe_members(
    fields: Seq<(Seq<char>, FieldInfo)>,
    ms: Seq<(Seq<char>, JsonView)>,
) -> Seq<(Seq<char>, FieldInfo)>
    decreases ms.len(),
{
    if ms.len() == 0 {
        fields
    } else {
        observe(observe_members(fields, ms.drop_last()), ms.last().0, ms.last().1)
    }
}

/// The fields after seeing the lines, in order; lines that are not JSON
/// objects change nothing.
pub open spec fn observe_lines(fields: Seq<(Seq<char>, FieldInfo)>, lines: Seq<Seq<char>>) -> Seq<
    (Seq<char>, FieldInfo),
>
    decreases lines.len(),
{
    if lines.len() == 0 {
        fields
    } else {
        let before = observe_lines(fields, lines.drop_last());
        match json::json_object(lines.last()) {
            Some(ms) => observe_members(before, ms),
            None => before,
        }
    }
}

/// How often `key` was seen, 0 when never.
pub open spec fn count_of(fields: Seq<(Seq<char>, FieldInfo)>, key: Seq<char>) -> int {
    if strmap::has_key(fields, key) {
        strmap::value_of(fields, key).sample_count as int
    } else {
        0
    }
}

/// The lines by their characters.
pub open spec fn line_views(lines: Seq<&str>) -> Seq<Seq<char>> {
    lines.map_values(|l: &str| l@)
}

/// Seeing a value changes only the entry of its key, whose count grows by one.
proof fn lemma_observe_entries(fields: Seq<(Seq<char>, FieldInfo)>, key: Seq<char>, v: JsonView)
    requires
        strmap::unique_keys(fields),
    ensures
        strmap::unique_keys(observe(fields, key, v)),
        forall|i: int|
            0 <= i < observe(fields, key, v).len() ==> if (#[trigger] observe(fields, key, v)[i]).0
                == key {
                observe(fields, key, v)[i].1.sample_count == count_of(fields, key) + 1
            } else {
                i < fields.len() && observe(fields, key, v)[i] == fields[i]
            },
{
    let old_info = if strmap::has_key(fields, key) {
        Some(strmap::value_of(fields, key))
    } else {
        None
    };
    strmap::lemma_insert_unique(fields, key, observed(old_info, key, v));
    let f2 = observe(fields, key, v);
    if strmap::has_key(fields, key) {
        let k = strmap::key_index(fields, key);
        assert forall|i: int| 0 <= i < f2.len() && f2[i].0 != key implies i < fields.len() && f2[i]
            == fields[i] by {
            assert(i != k);
        }
    }
}

/// Whether `c` occurs in `cs`.
fn has_char(cs: &[char], c: char) -> (r: bool)
    ensures
        r == cs@.contains(c),
{
    let mut i: usize = 0;
    while i < cs.len()
        invariant
            i <= cs@.len(),
            forall|j: int| 0 <= j < i ==> cs@[j] != c,
        decreases cs@.len() - i,
    {
        if cs[i] == c {
            return true;
        }
        i = i + 1;
    }
    false
}

/// Whether a string value looks like an ISO 8601 / RFC 3339 timestamp.
pub fn looks_like_timestamp(s: &str) -> (r: bool)
    requires
        timestamp_checkable(s@),
    ensures
        r == timestamp_like(s@),
{
    let bytes = s.as_bytes();
    assert(bytes@ == utf8(s@));
    if bytes.len() < 19 {
        return false;
    }
    let cs = text::chars_of(s);
    if !has_char(cs.as_slice(), 'T') {
        return false;
    }
    if !(has_char(cs.as_slice(), 'Z') || has_char(cs.as_slice(), '+') || has_char(cs.as_slice(), '-')) {
        return false;
    }
    let mut i: usize = 0;
    while i < 4
        invariant
            i <= 4,
            bytes@ == utf8(s@),
            bytes@.len() >= 19,
            forall|j: int| 0 <= j < i ==> 48 <= #[trigger] utf8(s@)[j] <= 57,
        decreases 4 - i,
    {
        if bytes[i] < 48 || bytes[i] > 57 {
            return false;
        }
        i = i + 1;
    }
    true
}

/// The type a JSON value suggests.
pub fn infer_type(v: &JsonValue) -> (t: FieldType)
    requires
        value_checkable(v@),
    ensures
        t == type_of(v@),
{
    match v {
        JsonValue::Bool(_) => FieldType::Boolean,
        JsonValue::Number(n) => if n.is_f64 && !n.is_i64 && !n.is_u64 {
            FieldType::Float
        } else {
            FieldType::Integer
        },
        JsonValue::Str(s) => if looks_like_timestamp(s.as_str()) {
            FieldType::Timestamp
        } else {
            FieldType::String
        },
        JsonValue::Null => FieldType::Unknown,
        _ => FieldType::String,
    }
}

/// Whether the timestamp check can read a value.
fn value_is_checkable(v: &JsonValue) -> (r: bool)
    ensures
        r == value_checkable(v@),
{
    match v {
        JsonValue::Str(s) => {
            let b = s.as_str().as_bytes();
            assert(b@ == utf8(s@));
            let n = b.len();
            let cs = text::chars_of(s.as_str());
            let shape = n >= 19 && has_char(cs.as_slice(), 'T') && (has_char(cs.as_slice(), 'Z')
                || has_char(cs.as_slice(), '+') || has_char(cs.as_slice(), '-'));
            assert(shape == timestamp_shape(s@));
            !shape || s.as_str().is_char_boundary(4)
        },
        _ => true,
    }
}

/// Whether the timestamp check can read every string value of a line.
pub fn line_is_checkable(line: &str) -> (r: bool)
    ensures
        r == line_checkable(line@),
{
    match json::parse_object(line) {
        None => true,
        Some(members) => {
            let ghost ms = json::members_view(members@);
            let mut i: usize = 0;
            while i < members.len()
                invariant
                    i <= members@.len(),
                    ms == json::members_view(members@),
                    json::json_object(line@) == Some(ms),
                    forall|j: int| 0 <= j < i ==> value_checkable(#[trigger] ms[j].1),
                decreases members@.len() - i,
            {
                let ok = value_is_checkable(&members[i].1);
                assert(ms[i as int].1 == members@[i as int].1@);
                if !ok {
                    assert(!value_checkable(ms[i as int].1));
                    assert(json::json_object(line@) matches Some(m) && m == ms);
                    assert(!line_checkable(line@));
                    return false;
                }
                i = i + 1;
            }
            true
        },
    }
}

/// The inferred schema of a set of log lines.
#[derive(Debug)]
pub struct Schema {
    pub fields: StrMap<FieldSchema>,
}

impl Default for Schema {
    fn default() -> (s: Self)
        ensures
            s.fields.wf(),
            s.fields.pairs().len() == 0,
    {
        Schema { fields: StrMap::new() }
    }
}

impl Schema {
    /// The fields by their views.
    pub open spec fn infos(&self) -> Seq<(Seq<char>, FieldInfo)> {
        strmap::map_entries(self.fields.pairs(), |f: FieldSchema| info_of(f))
    }

    /// Every sample count can still grow by `n`.
    pub open spec fn room_for(&self, n: int) -> bool {
        forall|i: int|
            0 <= i < self.fields.pairs().len() ==> (#[trigger] self.fields.pairs()[i]).1.sample_count
                + n <= usize::MAX
    }

    /// Records one more value `v` under `key`.
    fn observe_value(&mut self, key: &String, v: &JsonValue)
        requires
            old(self).fields.wf(),
            value_checkable(v@),
            count_of(old(self).infos(), key@) < usize::MAX,
        ensures
            final(self).fields.wf(),
            final(self).infos() == observe(old(self).infos(), key@, v@),
    {
        let ghost before = self.fields.pairs();
        proof {
            strmap::lemma_map_entries_keys(before, |f: FieldSchema| info_of(f), key@);
        }
        let ft = infer_type(v);
        let nullable = match v {
            JsonValue::Null => true,
            _ => false,
        };
        match self.fields.position(key.as_str()) {
            Some(i) => {
                let e = self.fields.value_at(i);
                let new_type = if e.inferred_type != ft && ft != FieldType::Unknown {
                    FieldType::String
                } else {
                    e.inferred_type
                };
                let updated = FieldSchema {
                    name: e.name.clone(),
                    inferred_type: new_type,
                    nullable: e.nullable || nullable,
                    sample_count: e.sample_count + 1,
                };
                self.fields.set_value_at(i, updated);
                proof {
                    strmap::lemma_insert_unique(before, key@, updated);
                    assert(self.fields.pairs() == strmap::pairs_insert(before, key@, updated));
                    strmap::lemma_map_entries_insert(before, |f: FieldSchema| info_of(f), key@, updated);
                }
            },
            None => {
                let fresh = FieldSchema {
                    name: key.clone(),
                    inferred_type: ft,
                    nullable,
                    sample_count: 1,
                };
                self.fields.insert(key.clone(), fresh);
                proof {
                    strmap::lemma_map_entries_insert(before, |f: FieldSchema| info_of(f), key@, fresh);
                }
            },
        }
    }

    /// Infers field types from the JSON objects among `lines`; other lines
    /// are skipped.
    pub fn infer_from_lines(&mut self, lines: &[&str])
        requires
            old(self).fields.wf(),
            old(self).room_for(lines@.len() as int),
            forall|i: int| 0 <= i < lines@.len() ==> line_checkable(#[trigger] lines@[i]@),
        ensures
            final(self).fields.wf(),
            final(self).infos() == observe_lines(old(self).infos(), line_views(lines@)),
    {
        let ghost orig = self.infos();
        let ghost lv = line_views(lines@);
        proof {
            strmap::lemma_map_entries_keys(self.fields.pairs(), |f: FieldSchema| info_of(f), Seq::empty());
            assert(lv.take(0) =~= Seq::<Seq<char>>::empty());
        }
        let n = lines.len();
        for li in 0..n
            invariant
                n == lines@.len(),
                self.fields.wf(),
                lv == line_views(lines@),
                lv.len() == lines@.len(),
                forall|i: int| 0 <= i < lines@.len() ==> line_checkable(#[trigger] lines@[i]@),
                strmap::unique_keys(orig),
                forall|i: int| 0 <= i < orig.len() ==> (#[trigger] orig[i]).1.sample_count + lines@.len() <= usize::MAX,
                self.infos() == observe_lines(orig, lv.take(li as int)),
                forall|i: int|
                    0 <= i < self.infos().len() ==> (#[trigger] self.infos()[i]).1.sample_count
                        <= count_of(orig, self.infos()[i].0) + li,
        {
            let ghost before = self.infos();
            assert(lv.take(li + 1).drop_last() =~= lv.take(li as int));
            assert(lv[li as int] == lines@[li as int]@);
            match json::parse_object(lines[li]) {
                Some(members) => {
                    let ghost ms = json::members_view(members@);
                    assert(line_checkable(lines@[li as int]@));
                    assert(json::json_object(lines@[li as int]@) == Some(ms));
                    assert forall|i: int| 0 <= i < ms.len() implies value_checkable(#[trigger] ms[i].1) by {
                        assert(value_checkable(json::json_object(lines@[li as int]@)->0[i].1));
                    }
                    assert(ms.take(0) =~= Seq::<(Seq<char>, JsonView)>::empty());
                    for j in 0..members.len()
                        invariant
                            self.fields.wf(),
                            ms == json::members_view(members@),
                            ms.len() == members@.len(),
                            strmap::unique_keys(ms),
                            forall|i: int| 0 <= i < ms.len() ==> value_checkable(#[trigger] ms[i].1),
                            strmap::unique_keys(orig),
                            forall|i: int|
                                0 <= i < orig.len() ==> (#[trigger] orig[i]).1.sample_count
                                    + lines@.len() <= usize::MAX,
                            li < lines@.len(),
                            n == lines@.len(),
                            self.infos() == observe_members(before, ms.take(j as int)),
                            forall|i: int|
                                0 <= i < self.infos().len() ==> (#[trigger] self.infos()[i]).1.sample_count
                                    <= count_of(orig, self.infos()[i].0) + li + (if strmap::has_key(
                                    ms.take(j as int),
                                    self.infos()[i].0,
                                ) {
                                    1int
                                } else {
                                    0int
                                }),
                    {
                        let ghost cur = self.infos();
                        let ghost k = ms[j as int].0;
                        assert(members@[j as int].0@ == k);
                        assert(members@[j as int].1@ == ms[j as int].1);
                        proof {
                            strmap::lemma_map_entries_keys(self.fields.pairs(), |f: FieldSchema| info_of(f), k);
                            assert(!strmap::has_key(ms.take(j as int), k)) by {
                                if strmap::has_key(ms.take(j as int), k) {
                                    let q = strmap::key_index(ms.take(j as int), k);
                                    assert(ms[q].0 == k);
                                }
                            }
                            if strmap::has_key(cur, k) {
                                let q = strmap::key_index(cur, k);
                                assert(cur[q].0 == k);
                                assert(cur[q] == self.infos()[q]);
                                assert(cur[q].1.sample_count <= count_of(orig, k) + li);
                                if strmap::has_key(orig, k) {
                                    let r = strmap::key_index(orig, k);
                                    assert(orig[r].1.sample_count + lines@.len() <= usize::MAX);
                                    assert(count_of(orig, k) == orig[r].1.sample_count);
                                }
                                assert(count_of(orig, k) + li < usize::MAX);
                                assert(count_of(cur, k) == cur[q].1.sample_count);
                            }
                            assert(count_of(cur, k) < usize::MAX);
                        }
                        self.observe_value(&members[j].0, &members[j].1);
                        proof {
                            lemma_observe_entries(cur, k, ms[j as int].1);
                            assert(ms.take(j + 1).drop_last() =~= ms.take(j as int));
                            let now = self.infos();
                            assert forall|i: int| 0 <= i < now.len() implies (#[trigger] now[i]).1.sample_count
                                <= count_of(orig, now[i].0) + li + (if strmap::has_key(
                                ms.take(j + 1),
                                now[i].0,
                            ) {
                                1int
                            } else {
                                0int
                            }) by {
                                if now[i].0 == k {
                                    assert(ms.take(j + 1)[j as int].0 == k);
                                    if strmap::has_key(cur, k) {
                                        let q = strmap::key_index(cur, k);
                                        assert(cur[q].1.sample_count <= count_of(orig, k) + li);
                                    }
                                } else {
                                    assert(now[i] == cur[i]);
                                    if strmap::has_key(ms.take(j as int), now[i].0) {
                                        let q = strmap::key_index(ms.take(j as int), now[i].0);
                                        assert(ms.take(j + 1)[q].0 == now[i].0);
                                    }
                                }
                            }
                        }
                    }
                    proof {
                        assert(ms.take(ms.len() as int) =~= ms);
                    }
                },
                None => {},
            }
        }
        proof {
            assert(lv.take(lv.len() as int) =~= lv);
        }
    }

    /// Infers field types from `lines` when the timestamp check can read
    /// every string value in them; otherwise leaves the schema unchanged and
    /// returns false.
    pub fn try_infer_from_lines(&mut self, lines: &[&str]) -> (ok: bool)
        requires
            old(self).fields.wf(),
            old(self).room_for(lines@.len() as int),
        ensures
            final(self).fields.wf(),
            ok == forall|i: int| 0 <= i < lines@.len() ==> line_checkable(#[trigger] lines@[i]@),
            ok ==> final(self).infos() == observe_lines(old(self).infos(), line_views(lines@)),
            !ok ==> final(self).infos() == old(self).infos(),
    {
        let mut i: usize = 0;
        while i < lines.len()
            invariant
                i <= lines@.len(),
                *self == *old(self),
                self.fields.wf(),
                forall|j: int| 0 <= j < i ==> line_checkable(#[trigger] lines@[j]@),
            decreases lines@.len() - i,
        {
            if !line_is_checkable(lines[i]) {
                return false;
            }
            i = i + 1;
        }
        self.infer_from_lines(lines);
        true
    }

    /// An empty schema.
    pub fn new() -> (s: Self)
        ensures
            s.fields.wf(),
            s.fields.pairs().len() == 0,
    {
        Schema { fields: StrMap::new() }
    }

    /// The schema of field `field`.
    pub fn get(&self, field: &str) -> (r: Option<&FieldSchema>)
        requires
            self.fields.wf(),
        ensures
            match r {
                Some(f) => strmap::has_key(self.fields.pairs(), field@) && *f == strmap::value_of(
                    self.fields.pairs(),
                    field@,
                ),
                None => !strmap::has_key(self.fields.pairs(), field@),
            },
    {
        self.fields.get(field)
    }
}

} // verus!
