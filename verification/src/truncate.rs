//! Line truncation support for long log lines.

use std::borrow::Cow;
use vstd::prelude::*;
use vstd::string::StringExecFns;

verus! {

/// Configuration for line truncation behavior.
#[derive(Debug, Clone)]
pub struct TruncateConfig {
    /// Maximum number of bytes allowed per line.
    pub max_bytes: usize,
    /// Suffix appended to truncated lines to indicate truncation.
    pub suffix: String,
}

impl Default for TruncateConfig {
    fn default() -> (c: Self)
        ensures
            c.max_bytes == 8192,
            c.suffix@ == "...[truncated]"@,
    {
        TruncateConfig { max_bytes: 8192, suffix: "...[truncated]".to_owned() }
    }
}

/// The UTF-8 bytes of `s`.
pub open spec fn utf8(s: Seq<char>) -> Seq<u8> {
    vstd::utf8::encode_utf8(s)
}

/// The largest char boundary of `bytes` at or below `max`.
pub open spec fn floor_boundary(bytes: Seq<u8>, max: int) -> int
    decreases max,
{
    if max >= bytes.len() {
        bytes.len() as int
    } else if max <= 0 || vstd::utf8::is_char_boundary(bytes, max) {
        if max < 0 {
            0
        } else {
            max
        }
    } else {
        floor_boundary(bytes, max - 1)
    }
}

/// The text `truncate_line` produces.
pub open spec fn truncated(line: Seq<char>, max_bytes: usize, suffix: Seq<char>) -> Seq<char> {
    if utf8(line).len() <= max_bytes {
        line
    } else {
        let target = if max_bytes >= utf8(suffix).len() {
            max_bytes - utf8(suffix).len()
        } else {
            0
        };
        vstd::utf8::decode_utf8(utf8(line).subrange(0, floor_boundary(utf8(line), target)))
            + suffix
    }
}

/// The UTF-8 bytes of two texts one after the other are the bytes of each.
pub proof fn lemma_utf8_concat(a: Seq<char>, b: Seq<char>)
    ensures
        utf8(a + b) == utf8(a) + utf8(b),
    decreases a.len(),
{
    if a.len() == 0 {
        assert(a + b =~= b);
    } else {
        lemma_utf8_concat(a.drop_first(), b);
        assert((a + b).drop_first() =~= a.drop_first() + b);
        assert((a + b)[0] == a[0]);
    }
}

/// Every character takes at least one byte.
pub proof fn lemma_utf8_len(s: Seq<char>)
    ensures
        utf8(s).len() >= s.len(),
    decreases s.len(),
{
    if s.len() > 0 {
        lemma_utf8_len(s.drop_first());
    }
}

/// `floor_boundary` lies at or below the bound and is a char boundary.
pub proof fn lemma_floor_boundary(bytes: Seq<u8>, max: int)
    requires
        vstd::utf8::valid_utf8(bytes),
        0 <= max,
    ensures
        0 <= floor_boundary(bytes, max) <= bytes.len(),
        floor_boundary(bytes, max) <= max,
        vstd::utf8::is_char_boundary(bytes, floor_boundary(bytes, max)),
    decreases max,
{
    vstd::utf8::is_char_boundary_start_end_of_seq(bytes);
    if max >= bytes.len() {
    } else if max <= 0 || vstd::utf8::is_char_boundary(bytes, max) {
    } else {
        lemma_floor_boundary(bytes, max - 1);
    }
}

/// A truncated line never exceeds the byte limit when the suffix fits in it,
/// and it is the line itself or a prefix of it, cut at a character
/// boundary, followed by the suffix.
pub proof fn lemma_truncated_within_limit(line: Seq<char>, max_bytes: usize, suffix: Seq<char>)
    requires
        utf8(suffix).len() <= max_bytes,
    ensures
        utf8(truncated(line, max_bytes, suffix)).len() <= max_bytes,
        truncated(line, max_bytes, suffix) == line || exists|k: int|
            0 <= k <= line.len() && truncated(line, max_bytes, suffix) == line.take(k) + suffix,
{
    let b = utf8(line);
    if b.len() > max_bytes {
        vstd::utf8::encode_utf8_valid_utf8(line);
        let target = max_bytes - utf8(suffix).len();
        lemma_floor_boundary(b, target);
        let k = floor_boundary(b, target);
        let head = b.subrange(0, k);
        vstd::utf8::valid_utf8_split(b, k);
        vstd::utf8::decode_utf8_encode_utf8(head);
        let h = vstd::utf8::decode_utf8(head);
        lemma_utf8_concat(h, suffix);
        vstd::utf8::decode_utf8_split(b, k);
        vstd::utf8::encode_utf8_decode_utf8(line);
        assert(line =~= h + vstd::utf8::decode_utf8(b.subrange(k, b.len() as int)));
        assert(line.take(h.len() as int) =~= h);
    }
}

/// No char boundary lies between `floor_boundary` and the bound: it is the
/// largest boundary at or below `max`.
pub proof fn lemma_floor_boundary_largest(bytes: Seq<u8>, max: int, j: int)
    requires
        vstd::utf8::valid_utf8(bytes),
        0 <= max < bytes.len(),
        floor_boundary(bytes, max) < j <= max,
    ensures
        !vstd::utf8::is_char_boundary(bytes, j),
    decreases max,
{
    if max <= 0 || vstd::utf8::is_char_boundary(bytes, max) {
    } else if j < max {
        lemma_floor_boundary_largest(bytes, max - 1, j);
    }
}

/// The end of the bytes of a leading part of a text is a char boundary of
/// the bytes of the whole text.
pub proof fn lemma_prefix_ends_at_boundary(a: Seq<char>, c: Seq<char>)
    ensures
        vstd::utf8::is_char_boundary(utf8(a + c), utf8(a).len() as int),
    decreases a.len(),
{
    vstd::utf8::encode_utf8_valid_utf8(a + c);
    if a.len() > 0 {
        let bytes = utf8(a + c);
        vstd::utf8::encode_utf8_first_scalar(a + c);
        assert((a + c)[0] == a[0]);
        assert((a + c).drop_first() =~= a.drop_first() + c);
        assert(vstd::utf8::pop_first_scalar(bytes) =~= utf8(a.drop_first() + c));
        lemma_utf8_concat(a, c);
        lemma_prefix_ends_at_boundary(a.drop_first(), c);
        let w = vstd::utf8::encode_scalar(a[0] as u32).len();
        assert(utf8(a).len() == w + utf8(a.drop_first()).len());
        vstd::utf8::char_is_scalar(a[0]);
        assert(w >= 1);
    }
}

/// A truncated line keeps the longest leading part of the line whose UTF-8
/// bytes fit in the limit less the suffix: the kept part fits, and keeping
/// one more character would not.
pub proof fn lemma_truncated_keeps_longest_prefix(line: Seq<char>, max_bytes: usize, suffix: Seq<char>)
    requires
        utf8(line).len() > max_bytes,
    ensures
        exists|k: int|
            0 <= k < line.len() && truncated(line, max_bytes, suffix) == line.take(k) + suffix
                && utf8(line.take(k)).len() <= (if max_bytes >= utf8(suffix).len() {
                max_bytes - utf8(suffix).len()
            } else {
                0
            }) && utf8(#[trigger] line.take(k + 1)).len() > (if max_bytes >= utf8(suffix).len() {
                max_bytes - utf8(suffix).len()
            } else {
                0
            }),
{
    let b = utf8(line);
    vstd::utf8::encode_utf8_valid_utf8(line);
    let target: int = if max_bytes >= utf8(suffix).len() {
        max_bytes - utf8(suffix).len()
    } else {
        0
    };
    lemma_floor_boundary(b, target);
    let f = floor_boundary(b, target);
    let head = b.subrange(0, f);
    vstd::utf8::valid_utf8_split(b, f);
    vstd::utf8::decode_utf8_encode_utf8(head);
    let h = vstd::utf8::decode_utf8(head);
    vstd::utf8::decode_utf8_split(b, f);
    vstd::utf8::encode_utf8_decode_utf8(line);
    let rest = vstd::utf8::decode_utf8(b.subrange(f, b.len() as int));
    assert(line =~= h + rest);
    let k = h.len() as int;
    assert(line.take(k) =~= h);
    if rest.len() == 0 {
        lemma_utf8_concat(h, rest);
        assert(h + rest =~= h);
        assert(false);
    }
    let a = line.take(k + 1);
    let c = line.subrange(k + 1, line.len() as int);
    assert(line =~= a + c);
    lemma_prefix_ends_at_boundary(a, c);
    assert(a =~= h + seq![line[k]]);
    lemma_utf8_concat(h, seq![line[k]]);
    lemma_utf8_len(seq![line[k]]);
    lemma_utf8_concat(a, c);
    if utf8(a).len() <= target {
        lemma_floor_boundary_largest(b, target, utf8(a).len() as int);
    }
    assert(truncated(line, max_bytes, suffix) == line.take(k) + suffix);
}

/// Returns the largest byte index `<= max` that is a valid UTF-8 char boundary.
fn floor_char_boundary(s: &str, max: usize) -> (idx: usize)
    ensures
        idx == floor_boundary(utf8(s@), max as int),
        idx <= utf8(s@).len(),
        vstd::utf8::is_char_boundary(utf8(s@), idx as int),
{
    proof {
        vstd::utf8::encode_utf8_valid_utf8(s@);
        vstd::utf8::is_char_boundary_start_end_of_seq(utf8(s@));
    }
    let bytes = s.as_bytes();
    if max >= bytes.len() {
        return bytes.len();
    }
    let mut idx = max;
    while idx > 0 && !s.is_char_boundary(idx)
        invariant
            idx <= max < utf8(s@).len(),
            floor_boundary(utf8(s@), idx as int) == floor_boundary(utf8(s@), max as int),
        decreases idx,
    {
        idx -= 1;
    }
    idx
}

/// Truncates a line to the configured maximum byte length, appending a suffix
/// if truncation occurs. Truncation is performed on a UTF-8 character boundary
/// to avoid producing invalid strings.
pub fn truncate_line<'a>(line: &'a str, config: &TruncateConfig) -> (r: Cow<'a, str>)
    ensures
        r@ == truncated(line@, config.max_bytes, config.suffix@),
        utf8(line@).len() <= config.max_bytes ==> r matches Cow::Borrowed(_),
{
    let line_len = line.as_bytes().len();
    if line_len <= config.max_bytes {
        return Cow::Borrowed(line);
    }
    let suffix_len = config.suffix.as_str().as_bytes().len();
    let target = config.max_bytes.saturating_sub(suffix_len);
    // Find the largest valid UTF-8 boundary at or before `target`.
    let cut = floor_char_boundary(line, target);
    let (head, _) = line.split_at(cut);
    proof {
        vstd::utf8::encode_utf8_decode_utf8(head@);
    }
    let mut out = head.to_owned();
    out.append(config.suffix.as_str());
    Cow::Owned(out)
}

/// Applies truncation to every line of a sequence, yielding owned strings.
pub struct TruncateIter {
    inner: Vec<String>,
    next_index: usize,
    config: TruncateConfig,
}

impl TruncateIter {
    /// The lines still to be yielded.
    pub closed spec fn remaining(&self) -> Seq<Seq<char>> {
        self.inner@.subrange(self.next_index as int, self.inner@.len() as int).map_values(
            |s: String| s@,
        )
    }

    /// The configuration applied to each line.
    pub closed spec fn config_view(&self) -> (usize, Seq<char>) {
        (self.config.max_bytes, self.config.suffix@)
    }

    /// Well-formedness: the position lies within the lines.
    pub closed spec fn wf(&self) -> bool {
        self.next_index <= self.inner@.len()
    }

    pub fn new(inner: Vec<String>, config: TruncateConfig) -> (it: Self)
        ensures
            it.wf(),
            it.remaining() == inner@.map_values(|s: String| s@),
            it.config_view() == (config.max_bytes, config.suffix@),
    {
        let it = TruncateIter { inner, next_index: 0, config };
        assert(it.inner@.subrange(0, it.inner@.len() as int) =~= it.inner@);
        it
    }

    /// The next line, truncated.
    pub fn next(&mut self) -> (r: Option<String>)
        requires
            old(self).wf(),
        ensures
            final(self).wf(),
            final(self).config_view() == old(self).config_view(),
            old(self).remaining().len() == 0 ==> r is None && final(self).remaining() == old(
                self,
            ).remaining(),
            old(self).remaining().len() > 0 ==> (r matches Some(s) && s@ == truncated(
                old(self).remaining()[0],
                old(self).config_view().0,
                old(self).config_view().1,
            ) && final(self).remaining() == old(self).remaining().drop_first()),
    {
        if self.next_index >= self.inner.len() {
            return None;
        }
        let ghost before = self.remaining();
        let out = truncate_line(self.inner[self.next_index].as_str(), &self.config);
        let s = match out {
            Cow::Borrowed(b) => b.to_owned(),
            Cow::Owned(o) => o,
        };
        self.next_index = self.next_index + 1;
        assert(self.remaining() =~= before.drop_first());
        Some(s)
    }

    /// All remaining lines, truncated, in order.
    pub fn collect_lines(self) -> (out: Vec<String>)
        requires
            self.wf(),
        ensures
            out@.map_values(|s: String| s@) == self.remaining().map_values(
                |l: Seq<char>| truncated(l, self.config_view().0, self.config_view().1),
            ),
    {
        let ghost all = self.remaining();
        let ghost cfg = self.config_view();
        let mut it = self;
        let mut out: Vec<String> = Vec::new();
        while it.next_index < it.inner.len()
            invariant
                it.wf(),
                it.config_view() == cfg,
                out@.len() + it.remaining().len() == all.len(),
                it.remaining() == all.subrange(out@.len() as int, all.len() as int),
                forall|k: int|
                    0 <= k < out@.len() ==> #[trigger] out@[k]@ == truncated(all[k], cfg.0, cfg.1),
            ensures
                out@.len() == all.len(),
                forall|k: int|
                    0 <= k < out@.len() ==> #[trigger] out@[k]@ == truncated(all[k], cfg.0, cfg.1),
            decreases it.remaining().len(),
        {
            let ghost k = out@.len();
            match it.next() {
                Some(s) => {
                    out.push(s);
                    assert(it.remaining() =~= all.subrange(out@.len() as int, all.len() as int));
                },
                None => {
                    break ;
                },
            }
        }
        assert(out@.map_values(|s: String| s@) =~= all.map_values(
            |l: Seq<char>| truncated(l, cfg.0, cfg.1),
        ));
        out
    }
}

} // verus!
