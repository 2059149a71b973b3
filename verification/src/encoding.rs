//! Input encodings: detection from a byte-order mark or a heuristic scan,
//! decoding of raw line bytes, and BOM stripping.

use std::borrow::Cow;
use vstd::prelude::*;
use crate::text;

verus! {

/// Detected or specified encoding for input data.
#[derive(Debug, Clone, Copy, PartialEq, Eq, Structural)]
pub enum Encoding {
    Utf8,
    Latin1,
    Utf16Le,
    Utf16Be,
}

impl Default for Encoding {
    fn default() -> (e: Self)
        ensures
            e == Encoding::Utf8,
    {
        Encoding::Utf8
    }
}

/// `buf` begins with `prefix`.
pub open spec fn starts_with(buf: Seq<u8>, prefix: Seq<u8>) -> bool {
    prefix.len() <= buf.len() && buf.subrange(0, prefix.len() as int) == prefix
}

/// The UTF-8 byte-order mark.
pub open spec fn bom_utf8() -> Seq<u8> {
    seq![0xEFu8, 0xBBu8, 0xBFu8]
}

/// The UTF-16 little-endian byte-order mark.
pub open spec fn bom_utf16le() -> Seq<u8> {
    seq![0xFFu8, 0xFEu8]
}

/// The UTF-16 big-endian byte-order mark.
pub open spec fn bom_utf16be() -> Seq<u8> {
    seq![0xFEu8, 0xFFu8]
}

/// Some byte of `buf` lies outside ASCII.
pub open spec fn has_high_byte(buf: Seq<u8>) -> bool {
    exists|i: int| 0 <= i < buf.len() && buf[i] > 0x7F
}

/// The encoding `detect_encoding` picks for `buf`.
pub open spec fn detected_encoding(buf: Seq<u8>) -> Encoding {
    if starts_with(buf, bom_utf16le()) {
        Encoding::Utf16Le
    } else if starts_with(buf, bom_utf16be()) {
        Encoding::Utf16Be
    } else if starts_with(buf, bom_utf8()) {
        Encoding::Utf8
    } else if !has_high_byte(buf) {
        Encoding::Utf8
    } else {
        Encoding::Latin1
    }
}

fn starts_with_bytes(buf: &[u8], prefix: &[u8]) -> (r: bool)
    ensures
        r == starts_with(buf@, prefix@),
{
    if prefix.len() > buf.len() {
        return false;
    }
    let mut i: usize = 0;
    while i < prefix.len()
        invariant
            prefix@.len() <= buf@.len(),
            i <= prefix@.len(),
            forall|j: int| 0 <= j < i ==> buf@[j] == prefix@[j],
        decreases prefix@.len() - i,
    {
        if buf[i] != prefix[i] {
            assert(buf@.subrange(0, prefix@.len() as int)[i as int] != prefix@[i as int]);
            return false;
        }
        i = i + 1;
    }
    assert(buf@.subrange(0, prefix@.len() as int) =~= prefix@);
    true
}

/// Detects encoding from a byte order mark (BOM) or heuristic scan.
pub fn detect_encoding(buf: &[u8]) -> (e: Encoding)
    ensures
        e == detected_encoding(buf@),
{
    if starts_with_bytes(buf, &[0xFF, 0xFE]) {
        return Encoding::Utf16Le;
    }
    if starts_with_bytes(buf, &[0xFE, 0xFF]) {
        return Encoding::Utf16Be;
    }
    if starts_with_bytes(buf, &[0xEF, 0xBB, 0xBF]) {
        return Encoding::Utf8;
    }
    // Heuristic: if high bytes are rare, treat as UTF-8
    let mut high_byte_count: usize = 0;
    let mut i: usize = 0;
    while i < buf.len()
        invariant
            i <= buf@.len(),
            high_byte_count <= i,
            (high_byte_count == 0) == !(exists|j: int| 0 <= j < i && buf@[j] > 0x7F),
        decreases buf@.len() - i,
    {
        if buf[i] > 0x7F {
            high_byte_count = high_byte_count + 1;
        }
        i = i + 1;
    }
    if high_byte_count == 0 || buf.len() == 0 {
        return Encoding::Utf8;
    }
    // Naive Latin-1 fallback
    Encoding::Latin1
}

/// The UTF-16 code units that `chunks_exact(2)` pairs up, little-endian
/// or big-endian; a trailing odd byte is dropped.
pub open spec fn utf16_units(bytes: Seq<u8>, little_endian: bool) -> Seq<u16> {
    Seq::new(
        bytes.len() / 2,
        |i: int|
            if little_endian {
                (bytes[2 * i] + 256 * bytes[2 * i + 1]) as u16
            } else {
                (bytes[2 * i + 1] + 256 * bytes[2 * i]) as u16
            },
    )
}

/// UTF-16 decoding with U+FFFD for each unpaired surrogate, as
/// `String::from_utf16_lossy` and `char::decode_utf16` document it.
pub open spec fn utf16_lossy(units: Seq<u16>) -> Seq<char>
    decreases units.len(),
{
    if units.len() == 0 {
        Seq::empty()
    } else if units[0] < 0xD800 || units[0] > 0xDFFF {
        seq![units[0] as char] + utf16_lossy(units.drop_first())
    } else if units[0] <= 0xDBFF && units.len() >= 2 && 0xDC00 <= units[1] <= 0xDFFF {
        seq![
            (0x10000 + (units[0] - 0xD800) * 0x400 + (units[1] - 0xDC00)) as u32 as char,
        ] + utf16_lossy(units.drop_first().drop_first())
    } else {
        seq!['\u{FFFD}'] + utf16_lossy(units.drop_first())
    }
}

/// What `String::from_utf8_lossy` makes of bytes that are not valid UTF-8.
pub uninterp spec fn utf8_lossy(bytes: Seq<u8>) -> Seq<char>;

/// Latin-1: each byte is the code point of the same value.
pub open spec fn latin1(bytes: Seq<u8>) -> Seq<char> {
    bytes.map_values(|b: u8| b as char)
}

/// The text `decode_line` produces.
pub open spec fn decoded(bytes: Seq<u8>, encoding: Encoding) -> Seq<char> {
    match encoding {
        Encoding::Utf8 => if vstd::utf8::valid_utf8(bytes) {
            vstd::utf8::decode_utf8(bytes)
        } else {
            utf8_lossy(bytes)
        },
        Encoding::Latin1 => latin1(bytes),
        Encoding::Utf16Le => utf16_lossy(utf16_units(bytes, true)),
        Encoding::Utf16Be => utf16_lossy(utf16_units(bytes, false)),
    }
}

/// Trusted: `std::str::from_utf8` accepts exactly the valid UTF-8 byte
/// sequences and then views the same bytes as text.
#[verifier::external_body]
fn str_from_utf8(bytes: &[u8]) -> (r: Option<&str>)
    ensures
        r is Some <==> vstd::utf8::valid_utf8(bytes@),
        r matches Some(s) ==> vstd::utf8::encode_utf8(s@) == bytes@,
{
    std::str::from_utf8(bytes).ok()
}

/// Trusted: `String::from_utf8_lossy`; the result is given a name,
/// `utf8_lossy`, and nothing else is claimed of it.
#[verifier::external_body]
fn string_from_utf8_lossy(bytes: &[u8]) -> (r: String)
    ensures
        r@ == utf8_lossy(bytes@),
{
    String::from_utf8_lossy(bytes).into_owned()
}

/// Trusted: `String::from_utf16_lossy` decodes surrogate pairs and puts
/// U+FFFD in place of each unpaired surrogate.
#[verifier::external_body]
fn string_from_utf16_lossy(units: &[u16]) -> (r: String)
    ensures
        r@ == utf16_lossy(units@),
{
    String::from_utf16_lossy(units)
}

fn pair_units(bytes: &[u8], little_endian: bool) -> (units: Vec<u16>)
    ensures
        units@ == utf16_units(bytes@, little_endian),
{
    let mut units: Vec<u16> = Vec::new();
    let len = bytes.len();
    let n = len / 2;
    let mut i: usize = 0;
    while i < n
        invariant
            len == bytes@.len(),
            n == bytes@.len() / 2,
            i <= n,
            units@ == utf16_units(bytes@, little_endian).take(i as int),
        decreases n - i,
    {
        assert(2 * i + 1 < bytes@.len()) by (nonlinear_arith)
            requires
                i < n,
                n == bytes@.len() / 2,
        ;
        let lo = if little_endian { bytes[2 * i] } else { bytes[2 * i + 1] };
        let hi = if little_endian { bytes[2 * i + 1] } else { bytes[2 * i] };
        let u: u16 = (lo as u16) + 256 * (hi as u16);
        units.push(u);
        assert(units@ =~= utf16_units(bytes@, little_endian).take(i + 1));
        i = i + 1;
    }
    assert(utf16_units(bytes@, little_endian).take(n as int) =~= utf16_units(bytes@, little_endian));
    units
}

/// Decodes a raw byte slice into text using the given encoding; borrowed
/// when the input is already valid UTF-8.
pub fn decode_line<'a>(bytes: &'a [u8], encoding: &Encoding) -> (r: Cow<'a, str>)
    ensures
        r@ == decoded(bytes@, *encoding),
        *encoding == Encoding::Utf8 && vstd::utf8::valid_utf8(bytes@) ==> r matches Cow::Borrowed(_),
{
    match encoding {
        Encoding::Utf8 => {
            match str_from_utf8(bytes) {
                Some(s) => {
                    proof {
                        vstd::utf8::encode_utf8_decode_utf8(s@);
                    }
                    Cow::Borrowed(s)
                },
                None => Cow::Owned(string_from_utf8_lossy(bytes)),
            }
        },
        Encoding::Latin1 => {
            // Latin-1: each byte maps directly to its Unicode code point.
            let mut cs: Vec<char> = Vec::new();
            let mut i: usize = 0;
            while i < bytes.len()
                invariant
                    i <= bytes@.len(),
                    cs@ == latin1(bytes@).take(i as int),
                decreases bytes@.len() - i,
            {
                cs.push(bytes[i] as char);
                assert(cs@ =~= latin1(bytes@).take(i + 1));
                i = i + 1;
            }
            assert(latin1(bytes@).take(bytes@.len() as int) =~= latin1(bytes@));
            Cow::Owned(text::string_from_chars(cs.as_slice()))
        },
        Encoding::Utf16Le => {
            let units = pair_units(bytes, true);
            Cow::Owned(string_from_utf16_lossy(units.as_slice()))
        },
        Encoding::Utf16Be => {
            let units = pair_units(bytes, false);
            Cow::Owned(string_from_utf16_lossy(units.as_slice()))
        },
    }
}

/// `buf` without a leading byte-order mark.
pub open spec fn without_bom(buf: Seq<u8>) -> Seq<u8> {
    if starts_with(buf, bom_utf8()) {
        buf.subrange(3, buf.len() as int)
    } else if starts_with(buf, bom_utf16le()) || starts_with(buf, bom_utf16be()) {
        buf.subrange(2, buf.len() as int)
    } else {
        buf
    }
}

/// Strips a leading BOM from a byte slice if present.
pub fn strip_bom(buf: &[u8]) -> (r: &[u8])
    ensures
        r@ == without_bom(buf@),
{
    if starts_with_bytes(buf, &[0xEF, 0xBB, 0xBF]) {
        buf.split_at(3).1
    } else if starts_with_bytes(buf, &[0xFF, 0xFE]) || starts_with_bytes(buf, &[0xFE, 0xFF]) {
        buf.split_at(2).1
    } else {
        buf
    }
}

} // verus!
