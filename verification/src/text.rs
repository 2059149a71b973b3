//! Character-level helpers shared by the line-processing modules.
//!
//! Text is modelled as a `Seq<char>` (the view of `str` and `String`); the
//! executable helpers work on `Vec<char>` and convert at the edges.

use vstd::prelude::*;

verus! {

/// Unicode `White_Space`, the set that `char::is_whitespace` and
/// `str::trim` use.
pub open spec fn is_ws(c: char) -> bool {
    ||| c == '\t' || c == '\n' || c == '\u{0B}' || c == '\u{0C}' || c == '\r' || c == ' '
    ||| c == '\u{85}' || c == '\u{A0}' || c == '\u{1680}'
    ||| ('\u{2000}' <= c && c <= '\u{200A}')
    ||| c == '\u{2028}' || c == '\u{2029}' || c == '\u{202F}' || c == '\u{205F}'
    ||| c == '\u{3000}'
}

/// Executable `is_ws`.
pub fn is_whitespace(c: char) -> (r: bool)
    ensures
        r == is_ws(c),
{
    c == '\t' || c == '\n' || c == '\u{0B}' || c == '\u{0C}' || c == '\r' || c == ' '
        || c == '\u{85}' || c == '\u{A0}' || c == '\u{1680}' || ('\u{2000}' <= c && c
        <= '\u{200A}') || c == '\u{2028}' || c == '\u{2029}' || c == '\u{202F}' || c
        == '\u{205F}' || c == '\u{3000}'
}

/// `s` without its leading white space.
pub open spec fn trim_start(s: Seq<char>) -> Seq<char>
    decreases s.len(),
{
    if s.len() > 0 && is_ws(s[0]) {
        trim_start(s.drop_first())
    } else {
        s
    }
}

/// `s` without its trailing white space.
pub open spec fn trim_end(s: Seq<char>) -> Seq<char>
    decreases s.len(),
{
    if s.len() > 0 && is_ws(s.last()) {
        trim_end(s.drop_last())
    } else {
        s
    }
}

/// `s` without leading and trailing white space, as `str::trim` gives it.
pub open spec fn trim(s: Seq<char>) -> Seq<char> {
    trim_end(trim_start(s))
}

/// `s` without trailing copies of `c`, as `str::trim_end_matches(c)` gives it.
pub open spec fn strip_trailing(s: Seq<char>, c: char) -> Seq<char>
    decreases s.len(),
{
    if s.len() > 0 && s.last() == c {
        strip_trailing(s.drop_last(), c)
    } else {
        s
    }
}

/// `pat` occurs in `text` at index `i`.
pub open spec fn occurs_at(text: Seq<char>, pat: Seq<char>, i: int) -> bool {
    0 <= i && i + pat.len() <= text.len() && text.subrange(i, i + pat.len()) == pat
}

/// The first index at or after `from` where `pat` occurs in `text`.
pub open spec fn find_from(text: Seq<char>, pat: Seq<char>, from: int) -> Option<int>
    decreases text.len() + 1 - from,
{
    if from < 0 || from + pat.len() > text.len() {
        None
    } else if occurs_at(text, pat, from) {
        Some(from)
    } else {
        find_from(text, pat, from + 1)
    }
}

/// What `find_from` gives: the first occurrence at or after `from`.
pub proof fn lemma_find_from(text: Seq<char>, pat: Seq<char>, from: int)
    requires
        0 <= from,
    ensures
        match find_from(text, pat, from) {
            Some(i) => from <= i && occurs_at(text, pat, i) && forall|j: int|
                from <= j < i ==> !occurs_at(text, pat, j),
            None => forall|j: int| from <= j ==> !occurs_at(text, pat, j),
        },
    decreases text.len() + 1 - from,
{
    if from < 0 || from + pat.len() > text.len() {
    } else if occurs_at(text, pat, from) {
    } else {
        lemma_find_from(text, pat, from + 1);
    }
}

/// The first index where `pat` occurs in `text`, as `str::find` gives it.
pub open spec fn find(text: Seq<char>, pat: Seq<char>) -> Option<int> {
    find_from(text, pat, 0)
}

/// The ASCII digit for `d < 10`.
pub open spec fn digit_char(d: nat) -> char {
    ((d + 48) as u8) as char
}

/// The decimal representation of `n`, as `Display` writes an unsigned integer.
pub open spec fn decimal(n: nat) -> Seq<char>
    decreases n,
{
    if n < 10 {
        seq![digit_char(n)]
    } else {
        decimal(n / 10).push(digit_char(n % 10))
    }
}

/// `str::replace` with an empty pattern: `to` before every character and at the end.
pub open spec fn replace_empty(s: Seq<char>, to: Seq<char>) -> Seq<char>
    decreases s.len(),
{
    if s.len() == 0 {
        to
    } else {
        to + seq![s[0]] + replace_empty(s.drop_first(), to)
    }
}

/// `str::replace` with a non-empty pattern: every non-overlapping occurrence of
/// `from`, scanning left to right, replaced by `to`.
pub open spec fn replace_nonempty(s: Seq<char>, from: Seq<char>, to: Seq<char>) -> Seq<char>
    recommends
        from.len() > 0,
    decreases s.len(),
{
    if from.len() == 0 {
        s
    } else {
        proof {
            lemma_find_from(s, from, 0);
        }
        match find(s, from) {
            None => s,
            Some(i) => s.subrange(0, i) + to + replace_nonempty(
                s.subrange(i + from.len(), s.len() as int),
                from,
                to,
            ),
        }
    }
}

/// `str::replace`.
pub open spec fn replace(s: Seq<char>, from: Seq<char>, to: Seq<char>) -> Seq<char> {
    if from.len() == 0 {
        replace_empty(s, to)
    } else {
        replace_nonempty(s, from, to)
    }
}

/// The items of `parts` separated by `sep`, as `[String]::join` gives it.
pub open spec fn join(parts: Seq<Seq<char>>, sep: Seq<char>) -> Seq<char>
    decreases parts.len(),
{
    if parts.len() == 0 {
        Seq::empty()
    } else if parts.len() == 1 {
        parts[0]
    } else {
        join(parts.drop_last(), sep) + sep + parts.last()
    }
}


/// Leading white space of length `a` is what `trim_start` removes.
pub proof fn lemma_trim_start(s: Seq<char>, a: int)
    requires
        0 <= a <= s.len(),
        forall|i: int| 0 <= i < a ==> is_ws(s[i]),
        a == s.len() || !is_ws(s[a]),
    ensures
        trim_start(s) == s.subrange(a, s.len() as int),
    decreases a,
{
    if a == 0 {
        assert(s.subrange(0, s.len() as int) =~= s);
    } else {
        let t = s.drop_first();
        assert forall|i: int| 0 <= i < a - 1 implies is_ws(t[i]) by {
            assert(t[i] == s[i + 1]);
        }
        lemma_trim_start(t, a - 1);
        assert(t.subrange(a - 1, t.len() as int) =~= s.subrange(a, s.len() as int));
    }
}

/// Trailing white space from `b` on is what `trim_end` removes.
pub proof fn lemma_trim_end(s: Seq<char>, b: int)
    requires
        0 <= b <= s.len(),
        forall|i: int| b <= i < s.len() ==> is_ws(s[i]),
        b == 0 || !is_ws(s[b - 1]),
    ensures
        trim_end(s) == s.subrange(0, b),
    decreases s.len() - b,
{
    if b == s.len() {
        assert(s.subrange(0, b) =~= s);
    } else {
        let t = s.drop_last();
        lemma_trim_end(t, b);
        assert(t.subrange(0, b) =~= s.subrange(0, b));
    }
}

/// The bounds of `trim(v)` within `v`.
pub fn trim_bounds(v: &[char]) -> (r: (usize, usize))
    ensures
        r.0 <= r.1 <= v@.len(),
        v@.subrange(r.0 as int, r.1 as int) == trim(v@),
        (r.1 - r.0 == v@.len()) == (trim(v@) == v@),
{
    let mut a: usize = 0;
    while a < v.len() && is_whitespace(v[a])
        invariant
            a <= v@.len(),
            forall|i: int| 0 <= i < a ==> is_ws(v@[i]),
        decreases v@.len() - a,
    {
        a = a + 1;
    }
    let mut b: usize = v.len();
    while b > a && is_whitespace(v[b - 1])
        invariant
            a <= b <= v@.len(),
            forall|i: int| b <= i < v@.len() ==> is_ws(v@[i]),
        decreases b,
    {
        b = b - 1;
    }
    proof {
        lemma_trim_start(v@, a as int);
        let t = v@.subrange(a as int, v@.len() as int);
        assert forall|i: int| b - a <= i < t.len() implies is_ws(t[i]) by {
            assert(t[i] == v@[a + i]);
        }
        lemma_trim_end(t, b - a);
        assert(t.subrange(0, b - a) =~= v@.subrange(a as int, b as int));
        if b - a != v@.len() {
            assert(trim(v@).len() != v@.len());
        } else {
            assert(v@.subrange(a as int, b as int) =~= v@);
        }
    }
    (a, b)
}

/// `find_from` on a suffix is `find_from` on the whole, shifted.
pub proof fn lemma_find_from_suffix(t: Seq<char>, p: Seq<char>, s: int, k: int)
    requires
        0 <= s <= t.len(),
        0 <= k,
    ensures
        find_from(t, p, s + k) == match find_from(t.subrange(s, t.len() as int), p, k) {
            Some(i) => Some(i + s),
            None => None,
        },
    decreases t.len() + 1 - (s + k),
{
    let u = t.subrange(s, t.len() as int);
    if s + k + p.len() > t.len() {
    } else {
        assert(occurs_at(t, p, s + k) == occurs_at(u, p, k)) by {
            assert(t.subrange(s + k, s + k + p.len()) =~= u.subrange(k, k + p.len()));
        }
        if !occurs_at(t, p, s + k) {
            lemma_find_from_suffix(t, p, s, k + 1);
        }
    }
}

/// The characters of `s`, in order.
pub fn chars_of(s: &str) -> (v: Vec<char>)
    ensures
        v@ == s@,
{
    let mut v: Vec<char> = Vec::new();
    for c in it: s.chars()
        invariant
            v@ == it.seq().take(it.index() as int),
            it.seq() == s@,
    {
        v.push(c);
    }
    assert(v@ == s@.take(s@.len() as int));
    v
}

/// A `String` holding the characters `v`.
///
/// Trusted: `FromIterator<&char> for String` collects the characters in order.
#[verifier::external_body]
pub(crate) fn string_from_chars(v: &[char]) -> (s: String)
    ensures
        s@ == v@,
{
    v.iter().collect()
}

/// Appends the characters of `s` to `v`.
pub fn push_seq(v: &mut Vec<char>, s: &[char])
    ensures
        final(v)@ == old(v)@ + s@,
{
    let ghost start = v@;
    for i in 0..s.len()
        invariant
            v@ == start + s@.take(i as int),
    {
        v.push(s[i]);
        assert(s@.take(i + 1) == s@.take(i as int).push(s@[i as int]));
    }
    assert(s@.take(s@.len() as int) == s@);
}

/// Appends the characters of `s` to `v`.
pub fn push_str(v: &mut Vec<char>, s: &str)
    ensures
        final(v)@ == old(v)@ + s@,
{
    let cs = chars_of(s);
    push_seq(v, cs.as_slice());
}

/// Whether `pat` occurs in `text` at `i`.
pub fn matches_at(text: &[char], pat: &[char], i: usize) -> (r: bool)
    ensures
        r == occurs_at(text@, pat@, i as int),
{
    if i > text.len() || pat.len() > text.len() - i {
        return false;
    }
    let mut k: usize = 0;
    while k < pat.len()
        invariant
            i + pat.len() <= text.len(),
            k <= pat.len(),
            forall|j: int| 0 <= j < k ==> text@[i + j] == pat@[j],
        decreases pat.len() - k,
    {
        if text[i + k] != pat[k] {
            assert(text@.subrange(i as int, i + pat.len())[k as int] != pat@[k as int]);
            return false;
        }
        k = k + 1;
    }
    assert(text@.subrange(i as int, i + pat@.len()) =~= pat@);
    true
}

/// The first index at or after `from` where `pat` occurs in `text`.
pub fn find_seq_from(text: &[char], pat: &[char], from: usize) -> (r: Option<usize>)
    ensures
        match r {
            Some(i) => find_from(text@, pat@, from as int) == Some(i as int),
            None => find_from(text@, pat@, from as int) is None,
        },
{
    let mut i = from;
    while i <= text.len() && pat.len() <= text.len() - i
        invariant
            from <= i,
            find_from(text@, pat@, from as int) == find_from(text@, pat@, i as int),
        decreases text.len() + 1 - i,
    {
        assert(pat@.len() == 0 ==> text@.subrange(i as int, i as int) =~= pat@);
        if matches_at(text, pat, i) {
            return Some(i);
        }
        i = i + 1;
    }
    None
}

/// The first index where `pat` occurs in `text`.
pub fn find_seq(text: &[char], pat: &[char]) -> (r: Option<usize>)
    ensures
        match r {
            Some(i) => find(text@, pat@) == Some(i as int),
            None => find(text@, pat@) is None,
        },
{
    find_seq_from(text, pat, 0)
}

/// The characters of `v` from `lo` up to `hi`.
pub fn slice_chars(v: &[char], lo: usize, hi: usize) -> (r: Vec<char>)
    requires
        lo <= hi <= v@.len(),
    ensures
        r@ == v@.subrange(lo as int, hi as int),
{
    let mut r: Vec<char> = Vec::new();
    let mut i = lo;
    while i < hi
        invariant
            lo <= i <= hi <= v@.len(),
            r@ == v@.subrange(lo as int, i as int),
        decreases hi - i,
    {
        r.push(v[i]);
        i = i + 1;
    }
    r
}

/// Appends the decimal representation of `n` to `v`.
pub fn push_decimal(v: &mut Vec<char>, n: u64)
    ensures
        final(v)@ == old(v)@ + decimal(n as nat),
    decreases n,
{
    let ghost before = v@;
    if n >= 10 {
        push_decimal(v, n / 10);
    }
    let d: u8 = (n % 10) as u8;
    v.push((d + 48) as char);
    if n >= 10 {
        assert(v@ =~= before + decimal(n as nat));
    } else {
        assert(v@ =~= before + decimal(n as nat));
    }
}

/// The length of `strip_trailing(v, c)`.
pub fn strip_trailing_len(v: &[char], c: char) -> (n: usize)
    ensures
        n <= v@.len(),
        v@.subrange(0, n as int) == strip_trailing(v@, c),
{
    let mut b = v.len();
    assert(v@.subrange(0, b as int) =~= v@);
    while b > 0 && v[b - 1] == c
        invariant
            b <= v@.len(),
            strip_trailing(v@.subrange(0, b as int), c) == strip_trailing(v@, c),
        decreases b,
    {
        assert(v@.subrange(0, b as int).drop_last() =~= v@.subrange(0, b - 1));
        b = b - 1;
    }
    b
}

/// The items of `parts` separated by `sep`.
pub fn join_chars(parts: &Vec<Vec<char>>, sep: &[char]) -> (out: Vec<char>)
    ensures
        out@ == join(parts@.map_values(|p: Vec<char>| p@), sep@),
{
    let ghost pv = parts@.map_values(|p: Vec<char>| p@);
    let mut out: Vec<char> = Vec::new();
    let mut i: usize = 0;
    assert(pv.take(0) =~= Seq::<Seq<char>>::empty());
    while i < parts.len()
        invariant
            i <= parts@.len(),
            pv == parts@.map_values(|p: Vec<char>| p@),
            out@ == join(pv.take(i as int), sep@),
        decreases parts@.len() - i,
    {
        if i > 0 {
            push_seq(&mut out, sep);
        }
        push_seq(&mut out, parts[i].as_slice());
        assert(pv.take(i + 1).drop_last() =~= pv.take(i as int));
        if i == 0 {
            assert(join(pv.take(1), sep@) == pv[0]);
            assert(out@ =~= pv[0]);
        }
        i = i + 1;
    }
    assert(pv.take(parts@.len() as int) =~= pv);
    out
}

/// An ASCII decimal digit.
pub open spec fn is_digit(c: char) -> bool {
    '0' <= c && c <= '9'
}

/// The value of a digit character.
pub open spec fn digit_value(c: char) -> int {
    c as int - 48
}

/// The value of a string of decimal digits (0 for none).
pub open spec fn digits_value(d: Seq<char>) -> nat
    decreases d.len(),
{
    if d.len() == 0 {
        0
    } else {
        (digits_value(d.drop_last()) * 10 + digit_value(d.last())) as nat
    }
}

/// `s` without one leading `+`.
pub open spec fn unsigned_digits(s: Seq<char>) -> Seq<char> {
    if s.len() > 0 && s[0] == '+' {
        s.drop_first()
    } else {
        s
    }
}

/// What `u64::from_str` accepts: an optional `+`, then at least one decimal
/// digit, with a value that fits in 64 bits.
pub open spec fn parse_u64(s: Seq<char>) -> Option<u64> {
    let d = unsigned_digits(s);
    if d.len() == 0 || !(forall|i: int| 0 <= i < d.len() ==> is_digit(d[i])) || digits_value(d)
        > u64::MAX {
        None
    } else {
        Some(digits_value(d) as u64)
    }
}

/// A prefix of a digit string has no larger value.
pub proof fn lemma_digits_value_prefix(d: Seq<char>, k: int)
    requires
        0 <= k <= d.len(),
        forall|i: int| 0 <= i < d.len() ==> is_digit(d[i]),
    ensures
        digits_value(d.subrange(0, k)) <= digits_value(d),
    decreases d.len() - k,
{
    if k < d.len() {
        let p = d.subrange(0, k + 1);
        lemma_digits_value_prefix(d, k + 1);
        assert(p.drop_last() =~= d.subrange(0, k));
        assert(is_digit(p.last()));
    } else {
        assert(d.subrange(0, k) =~= d);
    }
}

/// Parses a decimal `u64` as `u64::from_str` does.
pub fn parse_u64_chars(s: &[char]) -> (r: Option<u64>)
    ensures
        r == parse_u64(s@),
{
    let mut i: usize = 0;
    if s.len() > 0 && s[0] == '+' {
        i = 1;
    }
    let ghost d = unsigned_digits(s@);
    assert(d =~= s@.subrange(i as int, s@.len() as int));
    if i == s.len() {
        return None;
    }
    let start = i;
    let mut v: u64 = 0;
    while i < s.len()
        invariant
            start <= i <= s@.len(),
            d == s@.subrange(start as int, s@.len() as int),
            d == unsigned_digits(s@),
            d.len() > 0,
            forall|j: int| 0 <= j < i - start ==> is_digit(d[j]),
            v == digits_value(d.subrange(0, i - start)),
        decreases s@.len() - i,
    {
        let c = s[i];
        if !('0' <= c && c <= '9') {
            assert(d[i - start] == c);
            assert(!is_digit(d[i - start]));
            assert(!(forall|j: int| 0 <= j < d.len() ==> is_digit(d[j])));
            assert(parse_u64(s@) is None);
            return None;
        }
        let w: u128 = (v as u128) * 10 + ((c as u32 - 48) as u128);
        assert(d.subrange(0, i - start + 1).drop_last() =~= d.subrange(0, i - start));
        assert(w == digits_value(d.subrange(0, i - start + 1)));
        if w > u64::MAX as u128 {
            proof {
                if forall|j: int| 0 <= j < d.len() ==> is_digit(d[j]) {
                    lemma_digits_value_prefix(d, i - start + 1);
                    assert(digits_value(d) > u64::MAX);
                }
                assert(parse_u64(s@) is None);
            }
            return None;
        }
        v = w as u64;
        i = i + 1;
    }
    assert(d.subrange(0, d.len() as int) =~= d);
    Some(v)
}

/// The digits of `decimal(n)` read back give `n`.
pub proof fn lemma_decimal_digits(n: nat)
    ensures
        decimal(n).len() > 0,
        forall|i: int| 0 <= i < decimal(n).len() ==> is_digit(#[trigger] decimal(n)[i]),
        digits_value(decimal(n)) == n,
    decreases n,
{
    if n < 10 {
        assert(digit_value(digit_char(n)) == n);
        assert(decimal(n).drop_last() =~= Seq::<char>::empty());
        assert(decimal(n).last() == digit_char(n));
        assert(digits_value(Seq::<char>::empty()) == 0);
        assert(digits_value(decimal(n)) == digits_value(decimal(n).drop_last()) * 10 + digit_value(decimal(n).last()));
    } else {
        lemma_decimal_digits(n / 10);
        let d = decimal(n);
        assert(d.drop_last() =~= decimal(n / 10));
        assert(digit_value(digit_char(n % 10)) == n % 10);
        assert forall|i: int| 0 <= i < d.len() implies is_digit(#[trigger] d[i]) by {
            if i < d.len() - 1 {
                assert(d[i] == decimal(n / 10)[i]);
            }
        }
        assert(n == (n / 10) * 10 + n % 10);
        assert(d.last() == digit_char(n % 10));
        assert(digits_value(d) == digits_value(d.drop_last()) * 10 + digit_value(d.last()));
    }
}

/// Reading back the decimal representation of a `u64` gives it.
pub proof fn lemma_parse_decimal(n: u64)
    ensures
        parse_u64(decimal(n as nat)) == Some(n),
{
    lemma_decimal_digits(n as nat);
    let d = decimal(n as nat);
    assert(d[0] != '+');
    assert(unsigned_digits(d) == d);
}

/// `s` without one trailing carriage return.
pub open spec fn strip_cr(s: Seq<char>) -> Seq<char> {
    if s.len() > 0 && s.last() == '\r' {
        s.drop_last()
    } else {
        s
    }
}

/// The lines of `t` as `BufRead::lines` yields them: split at each newline,
/// a carriage return before the newline dropped, no empty line after a final
/// newline.
pub open spec fn lines(t: Seq<char>) -> Seq<Seq<char>>
    decreases t.len(),
{
    if t.len() == 0 {
        Seq::empty()
    } else {
        proof {
            lemma_find_from(t, seq!['\n'], 0);
        }
        match find(t, seq!['\n']) {
            None => seq![t],
            Some(i) => seq![strip_cr(t.subrange(0, i))] + lines(t.subrange(i + 1, t.len() as int)),
        }
    }
}

/// The lines of `t`.
pub fn split_lines(t: &[char]) -> (out: Vec<Vec<char>>)
    ensures
        out@.map_values(|l: Vec<char>| l@) == lines(t@),
{
    let nl: [char; 1] = ['\n'];
    assert(nl@ =~= seq!['\n']);
    let mut out: Vec<Vec<char>> = Vec::new();
    let mut start: usize = 0;
    assert(t@.subrange(0, t@.len() as int) =~= t@);
    while start < t.len()
        invariant
            start <= t@.len(),
            nl@ == seq!['\n'],
            out@.map_values(|l: Vec<char>| l@) + lines(t@.subrange(start as int, t@.len() as int))
                == lines(t@),
        decreases t@.len() - start,
    {
        let ghost rem = t@.subrange(start as int, t@.len() as int);
        let ghost before = out@.map_values(|l: Vec<char>| l@);
        proof {
            lemma_find_from_suffix(t@, seq!['\n'], start as int, 0);
            lemma_find_from(rem, seq!['\n'], 0);
        }
        match find_seq_from(t, &nl, start) {
            Some(pos) => {
                let mut line = slice_chars(t, start, pos);
                if line.len() > 0 && line[line.len() - 1] == '\r' {
                    line.pop();
                }
                assert(line@ == strip_cr(rem.subrange(0, pos - start)));
                let ghost lv = line@;
                out.push(line);
                assert(out@.map_values(|l: Vec<char>| l@) =~= before.push(lv));
                assert(t@.subrange(pos + 1, t@.len() as int) =~= rem.subrange(
                    pos - start + 1,
                    rem.len() as int,
                ));
                assert(before.push(lv) + lines(t@.subrange(pos + 1, t@.len() as int)) =~= before
                    + lines(rem));
                start = pos + 1;
            },
            None => {
                let line = slice_chars(t, start, t.len());
                let ghost lv = line@;
                out.push(line);
                assert(out@.map_values(|l: Vec<char>| l@) =~= before.push(lv));
                assert(lines(t@.subrange(t@.len() as int, t@.len() as int)) =~= Seq::<Seq<char>>::empty());
                assert(before.push(lv) =~= before + lines(rem));
                start = t.len();
            },
        }
    }
    assert(lines(t@.subrange(start as int, t@.len() as int)) =~= Seq::<Seq<char>>::empty());
    assert(out@.map_values(|l: Vec<char>| l@) =~= lines(t@));
    out
}

/// Whether two texts are equal, character for character.
pub fn str_eq(a: &str, b: &str) -> (r: bool)
    ensures
        r == (a@ == b@),
{
    let x = chars_of(a);
    let y = chars_of(b);
    if x.len() != y.len() {
        return false;
    }
    let mut i: usize = 0;
    while i < x.len()
        invariant
            x@.len() == y@.len(),
            x@ == a@,
            y@ == b@,
            i <= x@.len(),
            forall|j: int| 0 <= j < i ==> x@[j] == y@[j],
        decreases x@.len() - i,
    {
        if x[i] != y[i] {
            assert(x@[i as int] != y@[i as int]);
            assert(a@ != b@);
            return false;
        }
        i = i + 1;
    }
    assert(x@ =~= y@);
    true
}

/// `a` comes before `b` in the order of `str`: by code points, a proper
/// prefix first.
pub open spec fn lex_lt(a: Seq<char>, b: Seq<char>) -> bool
    decreases a.len(),
{
    if a.len() == 0 {
        b.len() > 0
    } else if b.len() == 0 {
        false
    } else if a[0] != b[0] {
        (a[0] as int) < (b[0] as int)
    } else {
        lex_lt(a.drop_first(), b.drop_first())
    }
}

/// The order is strict.
pub proof fn lemma_lex_asym(a: Seq<char>, b: Seq<char>)
    ensures
        lex_lt(a, b) ==> !lex_lt(b, a),
    decreases a.len(),
{
    if a.len() > 0 && b.len() > 0 && a[0] == b[0] {
        lemma_lex_asym(a.drop_first(), b.drop_first());
    }
}

/// The order is transitive.
pub proof fn lemma_lex_trans(a: Seq<char>, b: Seq<char>, c: Seq<char>)
    requires
        lex_lt(a, b),
        lex_lt(b, c),
    ensures
        lex_lt(a, c),
    decreases a.len(),
{
    if a.len() > 0 && b.len() > 0 && c.len() > 0 && a[0] == b[0] && b[0] == c[0] {
        lemma_lex_trans(a.drop_first(), b.drop_first(), c.drop_first());
    }
}

/// Two different texts are ordered one way or the other.
pub proof fn lemma_lex_total(a: Seq<char>, b: Seq<char>)
    requires
        a != b,
    ensures
        lex_lt(a, b) || lex_lt(b, a),
    decreases a.len(),
{
    if a.len() > 0 && b.len() > 0 && a[0] == b[0] {
        assert(a.drop_first() != b.drop_first()) by {
            if a.drop_first() == b.drop_first() {
                assert(a =~= seq![a[0]] + a.drop_first());
                assert(b =~= seq![b[0]] + b.drop_first());
            }
        }
        lemma_lex_total(a.drop_first(), b.drop_first());
    } else if a.len() == 0 && b.len() == 0 {
        assert(a =~= b);
    } else if a.len() > 0 && b.len() > 0 {
        assert((a[0] as int) != (b[0] as int));
    }
}

/// A common prefix does not change the order.
proof fn lemma_lex_skip(a: Seq<char>, b: Seq<char>, i: int)
    requires
        0 <= i <= a.len(),
        i <= b.len(),
        forall|j: int| 0 <= j < i ==> a[j] == b[j],
    ensures
        lex_lt(a, b) == lex_lt(a.subrange(i, a.len() as int), b.subrange(i, b.len() as int)),
    decreases i,
{
    if i > 0 {
        lemma_lex_skip(a.drop_first(), b.drop_first(), i - 1);
        assert(a.drop_first().subrange(i - 1, a.len() - 1) =~= a.subrange(i, a.len() as int));
        assert(b.drop_first().subrange(i - 1, b.len() - 1) =~= b.subrange(i, b.len() as int));
    } else {
        assert(a.subrange(0, a.len() as int) =~= a);
        assert(b.subrange(0, b.len() as int) =~= b);
    }
}

/// Whether `a` comes before `b` in the order of `str`.
pub fn chars_lt(a: &[char], b: &[char]) -> (r: bool)
    ensures
        r == lex_lt(a@, b@),
{
    let mut i: usize = 0;
    while i < a.len() && i < b.len() && a[i] == b[i]
        invariant
            i <= a@.len(),
            i <= b@.len(),
            forall|j: int| 0 <= j < i ==> a@[j] == b@[j],
        decreases a@.len() - i,
    {
        i = i + 1;
    }
    proof {
        lemma_lex_skip(a@, b@, i as int);
    }
    let ghost sa = a@.subrange(i as int, a@.len() as int);
    let ghost sb = b@.subrange(i as int, b@.len() as int);
    if i == a.len() {
        i < b.len()
    } else if i == b.len() {
        false
    } else {
        assert(sa[0] == a@[i as int] && sb[0] == b@[i as int]);
        a[i] < b[i]
    }
}

/// `s` with every occurrence of `from` replaced by `to`, as `str::replace`
/// gives it.
pub fn replace_str(s: &str, from: &str, to: &str) -> (r: String)
    ensures
        r@ == replace(s@, from@, to@),
{
    let cs = chars_of(s);
    let pat = chars_of(from);
    let rep = chars_of(to);
    let mut out: Vec<char> = Vec::new();
    if pat.len() == 0 {
        let mut i: usize = 0;
        assert(cs@.subrange(0, cs@.len() as int) =~= cs@);
        assert(out@ + replace_empty(cs@.subrange(0, cs@.len() as int), to@) =~= replace_empty(s@, to@));
        while i < cs.len()
            invariant
                i <= cs@.len(),
                rep@ == to@,
                cs@ == s@,
                out@ + replace_empty(cs@.subrange(i as int, cs@.len() as int), to@) == replace_empty(
                    s@,
                    to@,
                ),
            decreases cs@.len() - i,
        {
            let ghost rest = cs@.subrange(i as int, cs@.len() as int);
            assert(rest.drop_first() =~= cs@.subrange(i + 1, cs@.len() as int));
            assert(rest[0] == cs@[i as int]);
            push_seq(&mut out, rep.as_slice());
            out.push(cs[i]);
            i = i + 1;
        }
        push_seq(&mut out, rep.as_slice());
        assert(cs@.subrange(0, cs@.len() as int) =~= cs@);
        assert(cs@.subrange(cs@.len() as int, cs@.len() as int) =~= Seq::<char>::empty());
        assert(out@ =~= replace_empty(s@, to@));
    } else {
        let mut pos: usize = 0;
        assert(cs@.subrange(0, cs@.len() as int) =~= cs@);
        assert(out@ + replace_nonempty(cs@.subrange(0, cs@.len() as int), from@, to@) =~= replace_nonempty(s@, from@, to@));
        let n = cs.len();
        loop
            invariant_except_break
                out@ + replace_nonempty(cs@.subrange(pos as int, cs@.len() as int), from@, to@)
                    == replace_nonempty(s@, from@, to@),
            invariant
                pos <= cs@.len(),
                n == cs@.len(),
                pat@ == from@,
                pat@.len() > 0,
                rep@ == to@,
                cs@ == s@,
            ensures
                out@ == replace_nonempty(s@, from@, to@),
            decreases cs@.len() - pos,
        {
            let ghost rest = cs@.subrange(pos as int, cs@.len() as int);
            proof {
                lemma_find_from_suffix(cs@, pat@, pos as int, 0);
                lemma_find_from(rest, pat@, 0);
                lemma_find_from(cs@, pat@, pos as int);
            }
            match find_seq_from(cs.as_slice(), pat.as_slice(), pos) {
                None => {
                    let tail = slice_chars(cs.as_slice(), pos, cs.len());
                    assert(replace_nonempty(rest, pat@, to@) == rest);
                    push_seq(&mut out, tail.as_slice());
                    break;
                },
                Some(i) => {
                    let ghost k = i - pos;
                    assert(find(rest, pat@) == Some(k));
                    let mid = slice_chars(cs.as_slice(), pos, i);
                    assert(mid@ =~= rest.subrange(0, k));
                    let ghost before = out@;
                    push_seq(&mut out, mid.as_slice());
                    push_seq(&mut out, rep.as_slice());
                    assert(occurs_at(cs@, pat@, i as int));
                    assert(rest.subrange(k + pat@.len(), rest.len() as int) =~= cs@.subrange(
                        i + pat@.len(),
                        cs@.len() as int,
                    ));
                    assert(replace_nonempty(rest, pat@, to@) == rest.subrange(0, k) + to@
                        + replace_nonempty(rest.subrange(k + pat@.len(), rest.len() as int), pat@, to@));
                    pos = i + pat.len();
                    assert(out@ + replace_nonempty(cs@.subrange(pos as int, cs@.len() as int), from@, to@)
                        =~= before + replace_nonempty(rest, pat@, to@));
                },
            }
        }
        assert(out@ =~= replace_nonempty(s@, from@, to@));
    }
    string_from_chars(out.as_slice())
}

} // verus!
