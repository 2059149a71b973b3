//! Line splitting / field tokenization for structured log lines.
//!
//! Splits a raw log line into tokens by a configurable delimiter,
//! optionally trimming whitespace and skipping empty tokens.

use std::borrow::Cow;
use vstd::prelude::*;
use crate::text;

verus! {

/// How `split_line` tokenizes a line.
#[derive(Debug, Clone)]
pub struct SplitConfig {
    /// Delimiter string used to split each line.
    pub delimiter: String,
    /// Trim whitespace from each token.
    pub trim: bool,
    /// Drop empty tokens that result from consecutive delimiters.
    pub skip_empty: bool,
    /// Maximum number of tokens to produce (0 = unlimited).
    pub max_tokens: usize,
}

impl Default for SplitConfig {
    fn default() -> (c: Self)
        ensures
            c.delimiter@ == seq![' '],
            c.trim,
            c.skip_empty,
            c.max_tokens == 0,
    {
        SplitConfig { delimiter: text::string_from_chars(&[' ']), trim: true, skip_empty: true, max_tokens: 0 }
    }
}

/// A token, trimmed when `trim` is set.
pub open spec fn trimmed(s: Seq<char>, do_trim: bool) -> Seq<char> {
    if do_trim {
        text::trim(s)
    } else {
        s
    }
}

/// Whether a (trimmed) token is kept.
pub open spec fn keep_token(t: Seq<char>, skip_empty: bool) -> bool {
    t.len() > 0 || !skip_empty
}

/// The final token: the rest of the line.
pub open spec fn tail_tokens(rem: Seq<char>, do_trim: bool, skip_empty: bool) -> Seq<Seq<char>> {
    if keep_token(trimmed(rem, do_trim), skip_empty) {
        seq![trimmed(rem, do_trim)]
    } else {
        Seq::empty()
    }
}

/// The tokens of `rem` once `count` tokens have been produced and at most
/// `limit` may be split off before the rest becomes the final token.
pub open spec fn split_from(
    rem: Seq<char>,
    delim: Seq<char>,
    do_trim: bool,
    skip_empty: bool,
    limit: int,
    count: int,
) -> Seq<Seq<char>>
    decreases rem.len(), limit - count,
{
    if rem.len() > 0 && count < limit && !(delim.len() == 0 && skip_empty) {
        proof {
            text::lemma_find_from(rem, delim, 0);
        }
        match text::find(rem, delim) {
            Some(pos) => {
                let t = trimmed(rem.subrange(0, pos), do_trim);
                let rest = rem.subrange(pos + delim.len(), rem.len() as int);
                if keep_token(t, skip_empty) {
                    seq![t] + split_from(rest, delim, do_trim, skip_empty, limit, count + 1)
                } else {
                    split_from(rest, delim, do_trim, skip_empty, limit, count)
                }
            },
            None => tail_tokens(rem, do_trim, skip_empty),
        }
    } else {
        tail_tokens(rem, do_trim, skip_empty)
    }
}

/// How many tokens may be split off before the rest is the final token.
pub open spec fn split_limit(max_tokens: usize) -> int {
    if max_tokens == 0 {
        usize::MAX as int
    } else {
        max_tokens - 1
    }
}

/// The tokens `split_line` produces.
pub open spec fn split_spec(
    line: Seq<char>,
    delim: Seq<char>,
    do_trim: bool,
    skip_empty: bool,
    max_tokens: usize,
) -> Seq<Seq<char>> {
    if max_tokens == 1 {
        tail_tokens(line, do_trim, skip_empty)
    } else {
        split_from(line, delim, do_trim, skip_empty, split_limit(max_tokens), 0)
    }
}

/// A text whose first non-white-space character is at `i` keeps a
/// non-white-space first character after `trim_start`.
proof fn lemma_trim_start_keeps(x: Seq<char>, i: int)
    requires
        0 <= i < x.len(),
        !text::is_ws(x[i]),
    ensures
        text::trim_start(x).len() > 0,
        !text::is_ws(text::trim_start(x)[0]),
    decreases x.len(),
{
    if text::is_ws(x[0]) {
        assert(x.drop_first()[i - 1] == x[i]);
        lemma_trim_start_keeps(x.drop_first(), i - 1);
    }
}

/// `trim_end` keeps a non-white-space first character.
proof fn lemma_trim_end_keeps(y: Seq<char>)
    requires
        y.len() > 0,
        !text::is_ws(y[0]),
    ensures
        text::trim_end(y).len() > 0,
    decreases y.len(),
{
    if text::is_ws(y.last()) {
        assert(y.drop_last()[0] == y[0]);
        lemma_trim_end_keeps(y.drop_last());
    }
}

/// A text made only of white space trims to nothing.
proof fn lemma_trim_all_ws(x: Seq<char>)
    requires
        forall|i: int| 0 <= i < x.len() ==> text::is_ws(#[trigger] x[i]),
    ensures
        text::trim(x).len() == 0,
    decreases x.len(),
{
    if x.len() > 0 {
        assert forall|i: int| 0 <= i < x.drop_first().len() implies text::is_ws(
            #[trigger] x.drop_first()[i],
        ) by {
            assert(x.drop_first()[i] == x[i + 1]);
        }
        lemma_trim_all_ws(x.drop_first());
        assert(text::trim_start(x) == text::trim_start(x.drop_first()));
    }
}

/// A part of a text that is not empty once trimmed leaves the whole text not
/// empty once trimmed.
proof fn lemma_trimmed_part(x: Seq<char>, a: int, b: int, do_trim: bool)
    requires
        0 <= a <= b <= x.len(),
        trimmed(x.subrange(a, b), do_trim).len() > 0,
    ensures
        trimmed(x, do_trim).len() > 0,
{
    let sub = x.subrange(a, b);
    if do_trim {
        if forall|i: int| 0 <= i < sub.len() ==> text::is_ws(#[trigger] sub[i]) {
            lemma_trim_all_ws(sub);
        }
        let i = choose|i: int| 0 <= i < sub.len() && !text::is_ws(#[trigger] sub[i]);
        assert(x[a + i] == sub[i]);
        lemma_trim_start_keeps(x, a + i);
        lemma_trim_end_keeps(text::trim_start(x));
    }
}

/// When any token comes out, the rest of the line would be kept as the
/// final token.
proof fn lemma_tokens_need_content(
    rem: Seq<char>,
    delim: Seq<char>,
    do_trim: bool,
    skip_empty: bool,
    limit: int,
    count: int,
)
    requires
        split_from(rem, delim, do_trim, skip_empty, limit, count).len() > 0,
    ensures
        keep_token(trimmed(rem, do_trim), skip_empty),
    decreases rem.len(), limit - count,
{
    if rem.len() > 0 && count < limit && !(delim.len() == 0 && skip_empty) {
        text::lemma_find_from(rem, delim, 0);
        match text::find(rem, delim) {
            Some(pos) => {
                let t = trimmed(rem.subrange(0, pos), do_trim);
                let rest = rem.subrange(pos + delim.len(), rem.len() as int);
                if skip_empty {
                    if keep_token(t, skip_empty) {
                        lemma_trimmed_part(rem, 0, pos, do_trim);
                    } else {
                        lemma_tokens_need_content(rest, delim, do_trim, skip_empty, limit, count);
                        assert(rest =~= rem.subrange(pos + delim.len(), rem.len() as int));
                        lemma_trimmed_part(rem, pos + delim.len(), rem.len() as int, do_trim);
                    }
                }
            },
            None => {},
        }
    }
}

/// Splitting with a lower limit gives the same leading tokens: when the
/// split with limit `l2` has more than `l1 - count` tokens, the split with
/// limit `l1` has exactly one more than `l1 - count`, and its first
/// `l1 - count` are the first ones of the other.
/// Only kept tokens count toward the limit; skipped empty ones do not.
pub proof fn lemma_split_lower_limit(
    rem: Seq<char>,
    delim: Seq<char>,
    do_trim: bool,
    skip_empty: bool,
    l1: int,
    l2: int,
    count: int,
)
    requires
        count <= l1 <= l2,
    ensures
        split_from(rem, delim, do_trim, skip_empty, l2, count).len() > l1 - count ==> {
            &&& split_from(rem, delim, do_trim, skip_empty, l1, count).len() == l1 - count + 1
            &&& split_from(rem, delim, do_trim, skip_empty, l1, count).take(l1 - count) == split_from(
                rem,
                delim,
                do_trim,
                skip_empty,
                l2,
                count,
            ).take(l1 - count)
        },
    decreases rem.len(), l1 - count,
{
    let v = split_from(rem, delim, do_trim, skip_empty, l1, count);
    let u = split_from(rem, delim, do_trim, skip_empty, l2, count);
    if !(rem.len() > 0 && count < l1 && !(delim.len() == 0 && skip_empty)) {
        if count == l1 {
            assert(v.take(0) =~= u.take(0));
            if u.len() > 0 {
                lemma_tokens_need_content(rem, delim, do_trim, skip_empty, l2, count);
            }
        }
    } else {
        text::lemma_find_from(rem, delim, 0);
        match text::find(rem, delim) {
            Some(pos) => {
                let t = trimmed(rem.subrange(0, pos), do_trim);
                let rest = rem.subrange(pos + delim.len(), rem.len() as int);
                if keep_token(t, skip_empty) {
                    lemma_split_lower_limit(rest, delim, do_trim, skip_empty, l1, l2, count + 1);
                    let v1 = split_from(rest, delim, do_trim, skip_empty, l1, count + 1);
                    let u1 = split_from(rest, delim, do_trim, skip_empty, l2, count + 1);
                    assert(v == seq![t] + v1);
                    assert(u == seq![t] + u1);
                    if u.len() > l1 - count {
                        assert(v.take(l1 - count) =~= seq![t] + v1.take(l1 - count - 1));
                        assert(u.take(l1 - count) =~= seq![t] + u1.take(l1 - count - 1));
                    }
                } else {
                    lemma_split_lower_limit(rest, delim, do_trim, skip_empty, l1, l2, count);
                }
            },
            None => {},
        }
    }
}

/// No more than `limit - count + 1` tokens come out: the split-off ones and
/// the rest of the line.
pub proof fn lemma_split_count_bound(
    rem: Seq<char>,
    delim: Seq<char>,
    do_trim: bool,
    skip_empty: bool,
    limit: int,
    count: int,
)
    requires
        count <= limit,
    ensures
        split_from(rem, delim, do_trim, skip_empty, limit, count).len() <= limit - count + 1,
    decreases rem.len(), limit - count,
{
    if rem.len() > 0 && count < limit && !(delim.len() == 0 && skip_empty) {
        text::lemma_find_from(rem, delim, 0);
        match text::find(rem, delim) {
            Some(pos) => {
                let t = trimmed(rem.subrange(0, pos), do_trim);
                let rest = rem.subrange(pos + delim.len(), rem.len() as int);
                if keep_token(t, skip_empty) {
                    lemma_split_count_bound(rest, delim, do_trim, skip_empty, limit, count + 1);
                } else {
                    lemma_split_count_bound(rest, delim, do_trim, skip_empty, limit, count);
                }
            },
            None => {},
        }
    }
}

/// `max_tokens` bounds the tokens and keeps the leading ones: a line split
/// with a limit of `m` tokens gives at most `m`; and when the unlimited
/// split gives at least `m` tokens, the limited one gives exactly `m`,
/// starting with the same first `m - 1` tokens (the last one holds the rest
/// of the line). Skipped
/// empty tokens do not count toward the limit.
pub proof fn lemma_split_max_tokens(
    line: Seq<char>,
    delim: Seq<char>,
    do_trim: bool,
    skip_empty: bool,
    m: usize,
)
    requires
        m >= 1,
    ensures
        split_spec(line, delim, do_trim, skip_empty, m).len() <= m,
        split_spec(line, delim, do_trim, skip_empty, 0).len() >= m ==> {
            &&& split_spec(line, delim, do_trim, skip_empty, m).len() == m
            &&& split_spec(line, delim, do_trim, skip_empty, m).take(m - 1) == split_spec(
                line,
                delim,
                do_trim,
                skip_empty,
                0,
            ).take(m - 1)
        },
{
    if m == 1 {
        let a = split_spec(line, delim, do_trim, skip_empty, m);
        let b = split_spec(line, delim, do_trim, skip_empty, 0);
        assert(a.take(0) =~= b.take(0));
        if b.len() > 0 {
            lemma_tokens_need_content(line, delim, do_trim, skip_empty, usize::MAX as int, 0);
        }
    } else {
        lemma_split_count_bound(line, delim, do_trim, skip_empty, m - 1, 0);
        lemma_split_lower_limit(line, delim, do_trim, skip_empty, m - 1, usize::MAX as int, 0);
    }
}

/// The inputs on which `split_line` terminates: an empty delimiter matches
/// everywhere without consuming input, so it only ends when empty tokens are
/// kept and their number is bounded.
pub open spec fn split_terminates(delim: Seq<char>, skip_empty: bool, max_tokens: usize) -> bool {
    delim.len() > 0 || max_tokens == 1 || (!skip_empty && max_tokens > 0)
}

/// `s`, trimmed when `do_trim` is set; borrowed when nothing was removed.
pub fn maybe_trim<'a>(s: &'a str, do_trim: bool) -> (r: Cow<'a, str>)
    ensures
        r@ == trimmed(s@, do_trim),
{
    if do_trim {
        let cs = text::chars_of(s);
        let (a, b) = text::trim_bounds(cs.as_slice());
        if b - a == cs.len() {
            Cow::Borrowed(s)
        } else {
            let t = text::slice_chars(cs.as_slice(), a, b);
            Cow::Owned(text::string_from_chars(t.as_slice()))
        }
    } else {
        Cow::Borrowed(s)
    }
}

/// True when the token has no characters.
fn token_is_empty(t: &Cow<'_, str>) -> (b: bool)
    ensures
        b == (t@.len() == 0),
{
    match t {
        Cow::Borrowed(s) => s.is_empty(),
        Cow::Owned(s) => s.as_str().is_empty(),
    }
}

/// Splits `line` according to `config` and returns the resulting tokens.
///
/// When `max_tokens` is non-zero the last token contains the remainder of
/// the line (including any delimiters that were not consumed).
pub fn split_line<'a>(line: &'a str, config: &SplitConfig) -> (tokens: Vec<Cow<'a, str>>)
    requires
        split_terminates(config.delimiter@, config.skip_empty, config.max_tokens),
    ensures
        tokens@.map_values(|t: Cow<'a, str>| t@) == split_spec(
            line@,
            config.delimiter@,
            config.trim,
            config.skip_empty,
            config.max_tokens,
        ),
{
    let ghost do_trim = config.trim;
    let ghost skip = config.skip_empty;
    let mut tokens: Vec<Cow<'a, str>> = Vec::new();
    if config.max_tokens == 1 {
        let t = maybe_trim(line, config.trim);
        if !token_is_empty(&t) || !config.skip_empty {
            tokens.push(t);
        }
        assert(tokens@.map_values(|t: Cow<'a, str>| t@) =~= tail_tokens(line@, do_trim, skip));
        return tokens;
    }
    let limit: usize = if config.max_tokens == 0 {
        usize::MAX
    } else {
        config.max_tokens - 1
    };
    let chars = text::chars_of(line);
    let delim = text::chars_of(config.delimiter.as_str());
    let ghost dl = delim@;
    let mut start: usize = 0;
    let mut count: usize = 0;
    assert(chars@.subrange(0, chars@.len() as int) =~= chars@);
    while start < chars.len() && count < limit
        invariant
            start <= chars@.len(),
            count <= limit,
            chars@ == line@,
            delim@ == dl,
            dl == config.delimiter@,
            do_trim == config.trim,
            skip == config.skip_empty,
            limit as int == split_limit(config.max_tokens),
            config.max_tokens != 1,
            split_terminates(dl, skip, config.max_tokens),
            tokens@.map_values(|t: Cow<'a, str>| t@) + split_from(
                chars@.subrange(start as int, chars@.len() as int),
                dl,
                do_trim,
                skip,
                limit as int,
                count as int,
            ) == split_spec(line@, dl, do_trim, skip, config.max_tokens),
        ensures
            start <= chars@.len(),
            chars@ == line@,
            do_trim == config.trim,
            skip == config.skip_empty,
            tokens@.map_values(|t: Cow<'a, str>| t@) + tail_tokens(
                chars@.subrange(start as int, chars@.len() as int),
                do_trim,
                skip,
            ) == split_spec(line@, dl, do_trim, skip, config.max_tokens),
        decreases chars@.len() - start, limit - count,
    {
        let ghost rem = chars@.subrange(start as int, chars@.len() as int);
        let ghost before = tokens@.map_values(|t: Cow<'a, str>| t@);
        proof {
            text::lemma_find_from_suffix(chars@, dl, start as int, 0);
            text::lemma_find_from(rem, dl, 0);
            if dl.len() == 0 {
                assert(config.max_tokens > 0 && !skip);
            }
        }
        match text::find_seq_from(chars.as_slice(), delim.as_slice(), start) {
            Some(pos) => {
                assert(text::find(rem, dl) == Some(pos - start));
                let part = line.substring_char(start, pos);
                assert(part@ == rem.subrange(0, pos - start));
                let t = maybe_trim(part, config.trim);
                let ghost tv = t@;
                let next = pos + delim.len();
                assert(chars@.subrange(next as int, chars@.len() as int) =~= rem.subrange(
                    (pos - start) + dl.len(),
                    rem.len() as int,
                ));
                start = next;
                if !token_is_empty(&t) || !config.skip_empty {
                    tokens.push(t);
                    count = count + 1;
                    assert(tokens@.map_values(|t: Cow<'a, str>| t@) =~= before.push(tv));
                    assert(before + seq![tv] + split_from(
                        chars@.subrange(start as int, chars@.len() as int),
                        dl,
                        do_trim,
                        skip,
                        limit as int,
                        count as int,
                    ) =~= before.push(tv) + split_from(
                        chars@.subrange(start as int, chars@.len() as int),
                        dl,
                        do_trim,
                        skip,
                        limit as int,
                        count as int,
                    ));
                }
            },
            None => {
                assert(split_from(rem, dl, do_trim, skip, limit as int, count as int)
                    == tail_tokens(rem, do_trim, skip));
                break ;
            },
        }
    }
    let ghost before = tokens@.map_values(|t: Cow<'a, str>| t@);
    let tail = line.substring_char(start, chars.len());
    let t = maybe_trim(tail, config.trim);
    let ghost tv = t@;
    if !token_is_empty(&t) || !config.skip_empty {
        tokens.push(t);
        assert(tokens@.map_values(|t: Cow<'a, str>| t@) =~= before.push(tv));
    }
    assert(tokens@.map_values(|t: Cow<'a, str>| t@) =~= before + tail_tokens(
        chars@.subrange(start as int, chars@.len() as int),
        do_trim,
        skip,
    ));
    tokens
}

} // verus!
