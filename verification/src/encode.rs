//! Byte and character encodings: percent-encoding, XML escaping, decimal and
//! hexadecimal numerals, and UTF-16.

use vstd::prelude::*;
use vstd::utf8::encode_utf8;
use crate::text::{chars_of, is_ascii_alnum, push_char, push_str};

verus! {

// ---------------------------------------------------------------------------
// Hexadecimal and decimal digits
// ---------------------------------------------------------------------------

/// Upper-case hexadecimal digit for a value below 16.
pub open spec fn hex_upper(n: int) -> char {
    if n < 10 {
        (n + 48) as char
    } else {
        (n + 55) as char
    }
}

/// Lower-case hexadecimal digit for a value below 16.
pub open spec fn hex_lower(n: int) -> char {
    if n < 10 {
        (n + 48) as char
    } else {
        (n + 87) as char
    }
}

pub fn hex_upper_exec(n: u8) -> (c: char)
    requires
        n < 16,
    ensures
        c == hex_upper(n as int),
{
    if n < 10 {
        (n + 48) as char
    } else {
        (n + 55) as char
    }
}

pub fn hex_lower_exec(n: u8) -> (c: char)
    requires
        n < 16,
    ensures
        c == hex_lower(n as int),
{
    if n < 10 {
        (n + 48) as char
    } else {
        (n + 87) as char
    }
}

/// Decimal digit character.
pub open spec fn digit_char(d: int) -> char {
    (d + 48) as char
}

/// Decimal numeral of `n`, most significant digit first, no leading zeros
/// (the `Display` form of an unsigned integer).
pub open spec fn decimal(n: nat) -> Seq<char>
    decreases n,
{
    if n < 10 {
        seq![digit_char(n as int)]
    } else {
        decimal(n / 10).push(digit_char((n % 10) as int))
    }
}

/// Appends the decimal numeral of `n` to `s`.
pub fn push_decimal(s: &mut String, n: u64)
    ensures
        final(s)@ == old(s)@ + decimal(n as nat),
    decreases n,
{
    if n >= 10 {
        push_decimal(s, n / 10);
    }
    let d: u8 = (n % 10) as u8;
    push_char(s, (d + 48) as char);
    assert(final(s)@ =~= old(s)@ + decimal(n as nat));
}

/// The last `width` hexadecimal digits of `n`, lower case, zero padded.
pub open spec fn hex_lower_digits(n: nat, width: nat) -> Seq<char>
    decreases width,
{
    if width == 0 {
        seq![]
    } else {
        hex_lower_digits(n / 16, (width - 1) as nat).push(hex_lower((n % 16) as int))
    }
}

/// Appends the last `width` lower-case hexadecimal digits of `n`, zero padded
/// (`format!("{:0width$x}", n)` for `n` below `16^width`).
pub fn push_hex_digits(s: &mut String, n: u64, width: u8)
    ensures
        final(s)@ == old(s)@ + hex_lower_digits(n as nat, width as nat),
    decreases width,
{
    if width > 0 {
        push_hex_digits(s, n / 16, width - 1);
        let d: u8 = (n % 16) as u8;
        push_char(s, hex_lower_exec(d));
    }
    assert(final(s)@ =~= old(s)@ + hex_lower_digits(n as nat, width as nat));
}

// ---------------------------------------------------------------------------
// Percent-encoding
// ---------------------------------------------------------------------------

/// Bytes that percent-encoding leaves as they are: ASCII letters and digits,
/// `-`, `.`, `_`, `~`, and in path mode also `/` and `:`.
pub open spec fn keeps_byte(b: u8, path: bool) -> bool {
    ||| is_ascii_alnum(b as char)
    ||| b == 45 || b == 46 || b == 95 || b == 126
    ||| path && (b == 47 || b == 58)
}

/// The encoding of one byte: itself, or `%` and two upper-case hex digits.
pub open spec fn pct_byte(b: u8, path: bool) -> Seq<char> {
    if keeps_byte(b, path) {
        seq![b as char]
    } else {
        seq!['%', hex_upper((b / 16) as int), hex_upper((b % 16) as int)]
    }
}

/// Percent-encoding of a byte sequence.
pub open spec fn pct_encode(bytes: Seq<u8>, path: bool) -> Seq<char>
    decreases bytes.len(),
{
    if bytes.len() == 0 {
        seq![]
    } else {
        pct_encode(bytes.drop_last(), path) + pct_byte(bytes.last(), path)
    }
}

fn keeps_byte_exec(b: u8, path: bool) -> (r: bool)
    ensures
        r == keeps_byte(b, path),
{
    (48 <= b && b <= 57) || (65 <= b && b <= 90) || (97 <= b && b <= 122) || b == 45 || b == 46
        || b == 95 || b == 126 || (path && (b == 47 || b == 58))
}

fn pct_encode_exec(bytes: &[u8], path: bool) -> (r: String)
    ensures
        r@ == pct_encode(bytes@, path),
{
    let mut out = String::new();
    let mut i: usize = 0;
    while i < bytes.len()
        invariant
            i <= bytes.len(),
            out@ == pct_encode(bytes@.take(i as int), path),
        decreases bytes.len() - i,
    {
        let b = bytes[i];
        if keeps_byte_exec(b, path) {
            push_char(&mut out, b as char);
        } else {
            push_char(&mut out, '%');
            push_char(&mut out, hex_upper_exec(b / 16));
            push_char(&mut out, hex_upper_exec(b % 16));
        }
        assert(bytes@.take(i + 1).drop_last() =~= bytes@.take(i as int));
        i = i + 1;
        assert(out@ =~= pct_encode(bytes@.take(i as int), path));
    }
    assert(bytes@.take(bytes.len() as int) =~= bytes@);
    out
}

/// Percent-encodes the UTF-8 bytes of `value`, keeping only ASCII letters,
/// digits and `-._~`.
pub fn percent_encode(value: &str) -> (r: String)
    ensures
        r@ == pct_encode(encode_utf8(value@), false),
{
    pct_encode_exec(value.as_bytes(), false)
}

/// Percent-encodes the UTF-8 bytes of a path, also keeping `/` and `:`.
pub fn uri_encode_path(path: &str) -> (r: String)
    ensures
        r@ == pct_encode(encode_utf8(path@), true),
{
    pct_encode_exec(path.as_bytes(), true)
}

// ---------------------------------------------------------------------------
// XML escaping
// ---------------------------------------------------------------------------

/// The XML text for one character: the five markup characters become entity
/// references, everything else stands for itself.
pub open spec fn xml_escape_char(c: char) -> Seq<char> {
    if c == '&' {
        seq!['&', 'a', 'm', 'p', ';']
    } else if c == '<' {
        seq!['&', 'l', 't', ';']
    } else if c == '>' {
        seq!['&', 'g', 't', ';']
    } else if c == '"' {
        seq!['&', 'q', 'u', 'o', 't', ';']
    } else if c == '\'' {
        seq!['&', 'a', 'p', 'o', 's', ';']
    } else {
        seq![c]
    }
}

/// XML escaping of a character sequence.
pub open spec fn xml_escape(s: Seq<char>) -> Seq<char>
    decreases s.len(),
{
    if s.len() == 0 {
        seq![]
    } else {
        xml_escape(s.drop_last()) + xml_escape_char(s.last())
    }
}

/// Escapes `&`, `<`, `>`, `"` and `'` for use in XML text and attribute values.
pub fn escape_xml(value: &str) -> (r: String)
    ensures
        r@ == xml_escape(value@),
{
    let v = chars_of(value);
    let mut out = String::new();
    let mut i: usize = 0;
    while i < v.len()
        invariant
            i <= v.len(),
            out@ == xml_escape(v@.take(i as int)),
        decreases v.len() - i,
    {
        let c = v[i];
        if c == '&' {
            push_str(&mut out, "&amp;");
        } else if c == '<' {
            push_str(&mut out, "&lt;");
        } else if c == '>' {
            push_str(&mut out, "&gt;");
        } else if c == '"' {
            push_str(&mut out, "&quot;");
        } else if c == '\'' {
            push_str(&mut out, "&apos;");
        } else {
            push_char(&mut out, c);
        }
        proof {
            reveal_strlit("&amp;");
            reveal_strlit("&lt;");
            reveal_strlit("&gt;");
            reveal_strlit("&quot;");
            reveal_strlit("&apos;");
        }
        assert(v@.take(i + 1).drop_last() =~= v@.take(i as int));
        i = i + 1;
        assert(out@ =~= xml_escape(v@.take(i as int)));
    }
    assert(v@.take(v.len() as int) =~= v@);
    out
}

// ---------------------------------------------------------------------------
// UTF-16
// ---------------------------------------------------------------------------

/// UTF-16 code units of one character: one unit below U+10000, otherwise a
/// surrogate pair.
pub open spec fn utf16_units(c: char) -> Seq<u16> {
    let v = c as u32;
    if v < 0x10000 {
        seq![v as u16]
    } else {
        seq![(0xD800 + (v - 0x10000) / 0x400) as u16, (0xDC00 + (v - 0x10000) % 0x400) as u16]
    }
}

/// UTF-16 encoding of a character sequence (`str::encode_utf16`).
pub open spec fn encode_utf16(s: Seq<char>) -> Seq<u16>
    decreases s.len(),
{
    if s.len() == 0 {
        seq![]
    } else {
        encode_utf16(s.drop_last()) + utf16_units(s.last())
    }
}

/// The UTF-16 encoding of `value` followed by a terminating zero unit, as
/// wide-string Win32 calls expect.
pub fn wide_null(value: &str) -> (r: Vec<u16>)
    ensures
        r@ == encode_utf16(value@).push(0),
{
    let v = chars_of(value);
    let mut out: Vec<u16> = Vec::new();
    let mut i: usize = 0;
    while i < v.len()
        invariant
            i <= v.len(),
            out@ == encode_utf16(v@.take(i as int)),
        decreases v.len() - i,
    {
        let c = v[i];
        let u: u32 = c as u32;
        if u < 0x10000 {
            out.push(u as u16);
        } else {
            let w: u32 = u - 0x10000;
            out.push((0xD800 + w / 0x400) as u16);
            out.push((0xDC00 + w % 0x400) as u16);
        }
        assert(v@.take(i + 1).drop_last() =~= v@.take(i as int));
        i = i + 1;
        assert(out@ =~= encode_utf16(v@.take(i as int)));
    }
    assert(v@.take(v.len() as int) =~= v@);
    out.push(0);
    out
}

// ---------------------------------------------------------------------------
// Laws
// ---------------------------------------------------------------------------

/// The number that a decimal numeral denotes.
pub open spec fn decimal_value(s: Seq<char>) -> int
    decreases s.len(),
{
    if s.len() == 0 {
        0
    } else {
        decimal_value(s.drop_last()) * 10 + (s.last() as int - 48)
    }
}

/// Reading back a decimal numeral gives the number it was written from.
pub proof fn lemma_decimal_value(n: nat)
    ensures
        decimal_value(decimal(n)) == n,
        decimal(n).len() > 0,
    decreases n,
{
    if n >= 10 {
        lemma_decimal_value(n / 10);
        assert(decimal(n).drop_last() =~= decimal(n / 10));
        let d = (n % 10) as int;
        assert(digit_char(d) as int == d + 48);
        assert(decimal(n).last() == digit_char(d));
        assert((n / 10) * 10 + d == n);
        assert(decimal(n).len() > 0);
        assert(decimal_value(decimal(n)) == decimal_value(decimal(n).drop_last()) * 10 + (
        decimal(n).last() as int - 48));
    } else {
        assert(decimal(n).drop_last() =~= Seq::<char>::empty());
        assert(digit_char(n as int) as int == n + 48);
        assert(decimal(n).last() == digit_char(n as int));
        assert(decimal(n).len() == 1);
        assert(decimal_value(decimal(n)) == decimal_value(decimal(n).drop_last()) * 10 + (
        decimal(n).last() as int - 48));
    }
}

/// Distinct numbers have distinct decimal numerals.
pub proof fn lemma_decimal_injective(a: nat, b: nat)
    requires
        decimal(a) == decimal(b),
    ensures
        a == b,
{
    lemma_decimal_value(a);
    lemma_decimal_value(b);
}

/// The value of a hexadecimal digit of either case, or -1.
pub open spec fn hex_value(c: char) -> int {
    if '0' <= c && c <= '9' {
        c as int - 48
    } else if 'A' <= c && c <= 'F' {
        c as int - 55
    } else if 'a' <= c && c <= 'f' {
        c as int - 87
    } else {
        -1
    }
}

/// Percent-decoding: `%` with two hexadecimal digits stands for that byte, any
/// other ASCII character for its own code; anything else is malformed.
pub open spec fn pct_decode(s: Seq<char>) -> Option<Seq<u8>>
    decreases s.len(),
{
    if s.len() == 0 {
        Some(seq![])
    } else if s[0] == '%' {
        if s.len() >= 3 && 0 <= hex_value(s[1]) && 0 <= hex_value(s[2]) {
            match pct_decode(s.skip(3)) {
                Some(rest) => Some(seq![(hex_value(s[1]) * 16 + hex_value(s[2])) as u8] + rest),
                None => None,
            }
        } else {
            None
        }
    } else if (s[0] as u32) < 128 {
        match pct_decode(s.drop_first()) {
            Some(rest) => Some(seq![s[0] as u8] + rest),
            None => None,
        }
    } else {
        None
    }
}

proof fn lemma_pct_encode_front(bytes: Seq<u8>, path: bool)
    requires
        bytes.len() > 0,
    ensures
        pct_encode(bytes, path) == pct_byte(bytes[0], path) + pct_encode(bytes.drop_first(), path),
    decreases bytes.len(),
{
    if bytes.len() == 1 {
        assert(bytes.drop_last() =~= Seq::<u8>::empty());
        assert(bytes.drop_first() =~= Seq::<u8>::empty());
        assert(pct_encode(bytes.drop_last(), path) =~= Seq::<char>::empty());
        assert(bytes.last() == bytes[0]);
        assert(pct_encode(bytes, path) =~= pct_byte(bytes[0], path));
    } else {
        lemma_pct_encode_front(bytes.drop_last(), path);
        assert(bytes.drop_last().drop_first() =~= bytes.drop_first().drop_last());
        assert(pct_encode(bytes, path) =~= pct_byte(bytes[0], path) + pct_encode(
            bytes.drop_first(),
            path,
        ));
    }
}

proof fn lemma_hex_upper_value(n: int)
    requires
        0 <= n < 16,
    ensures
        hex_value(hex_upper(n)) == n,
        hex_upper(n) != '%',
{
}

/// Percent-encoding loses nothing: decoding the encoding of any byte sequence
/// gives that byte sequence back.
pub proof fn lemma_percent_roundtrip(bytes: Seq<u8>, path: bool)
    ensures
        pct_decode(pct_encode(bytes, path)) == Some(bytes),
    decreases bytes.len(),
{
    if bytes.len() == 0 {
    } else {
        let b = bytes[0];
        let rest = pct_encode(bytes.drop_first(), path);
        lemma_pct_encode_front(bytes, path);
        lemma_percent_roundtrip(bytes.drop_first(), path);
        let e = pct_byte(b, path) + rest;
        if keeps_byte(b, path) {
            assert(e[0] == b as char);
            assert(e.drop_first() =~= rest);
            assert(seq![b] + bytes.drop_first() =~= bytes);
        } else {
            lemma_hex_upper_value((b / 16) as int);
            lemma_hex_upper_value((b % 16) as int);
            assert(e[1] == hex_upper((b / 16) as int));
            assert(e[2] == hex_upper((b % 16) as int));
            assert(e.skip(3) =~= rest);
            assert(seq![b] + bytes.drop_first() =~= bytes);
        }
    }
}

/// The number of bytes that percent-encoding writes as `%XX`.
pub open spec fn escaped_count(bytes: Seq<u8>, path: bool) -> nat
    decreases bytes.len(),
{
    if bytes.len() == 0 {
        0
    } else if keeps_byte(bytes.last(), path) {
        escaped_count(bytes.drop_last(), path)
    } else {
        escaped_count(bytes.drop_last(), path) + 1
    }
}

/// Upper-case hexadecimal digit.
pub open spec fn is_upper_hex(c: char) -> bool {
    ('0' <= c && c <= '9') || ('A' <= c && c <= 'F')
}

/// Characters that percent-encoding writes as themselves.
pub open spec fn is_kept_char(c: char, path: bool) -> bool {
    ||| is_ascii_alnum(c)
    ||| c == '-' || c == '.' || c == '_' || c == '~'
    ||| path && (c == '/' || c == ':')
}

proof fn lemma_hex_upper_is_hex(n: int)
    requires
        0 <= n < 16,
    ensures
        is_upper_hex(hex_upper(n)),
{
}

/// The shape of a percent-encoding: one character per kept byte and three per
/// other byte; every character is a kept one or `%`; and every `%` is
/// followed by two upper-case hexadecimal digits.
pub proof fn lemma_percent_shape(bytes: Seq<u8>, path: bool)
    ensures
        pct_encode(bytes, path).len() == bytes.len() + 2 * escaped_count(bytes, path),
        forall|i: int|
            0 <= i < pct_encode(bytes, path).len() ==> is_kept_char(
                #[trigger] pct_encode(bytes, path)[i],
                path,
            ) || pct_encode(bytes, path)[i] == '%',
        forall|i: int|
            0 <= i < pct_encode(bytes, path).len() && #[trigger] pct_encode(bytes, path)[i]
                == '%' ==> i + 2 < pct_encode(bytes, path).len() && is_upper_hex(
                pct_encode(bytes, path)[i + 1],
            ) && is_upper_hex(pct_encode(bytes, path)[i + 2]),
    decreases bytes.len(),
{
    if bytes.len() > 0 {
        let init = bytes.drop_last();
        let b = bytes.last();
        lemma_percent_shape(init, path);
        let a = pct_encode(init, path);
        let t = pct_byte(b, path);
        let e = pct_encode(bytes, path);
        assert(e == a + t);
        if !keeps_byte(b, path) {
            lemma_hex_upper_is_hex((b / 16) as int);
            lemma_hex_upper_is_hex((b % 16) as int);
        }
        assert forall|i: int| 0 <= i < e.len() implies is_kept_char(#[trigger] e[i], path) || e[i]
            == '%' by {
            if i < a.len() {
                assert(e[i] == a[i]);
            } else {
                assert(e[i] == t[i - a.len()]);
                if keeps_byte(b, path) {
                    assert(e[i] == b as char);
                } else if i > a.len() {
                    assert(is_upper_hex(e[i]));
                }
            }
        }
        assert forall|i: int| 0 <= i < e.len() && #[trigger] e[i] == '%' implies i + 2 < e.len()
            && is_upper_hex(e[i + 1]) && is_upper_hex(e[i + 2]) by {
            if i < a.len() {
                assert(e[i] == a[i]);
                assert(e[i + 1] == a[i + 1]);
                assert(e[i + 2] == a[i + 2]);
            } else {
                assert(e[i] == t[i - a.len()]);
                if keeps_byte(b, path) {
                    assert(e[i] == b as char);
                    assert((b as char) as u32 == b as u32);
                } else {
                    if i > a.len() {
                        assert(is_upper_hex(e[i]));
                        assert(e[i] != '%');
                    }
                    assert(i == a.len());
                    assert(e[i + 1] == t[1]);
                    assert(e[i + 2] == t[2]);
                }
            }
        }
    }
}

/// XML unescaping of the five predefined entities; a bare `&` is malformed.
pub open spec fn xml_unescape(s: Seq<char>) -> Option<Seq<char>>
    decreases s.len(),
{
    if s.len() == 0 {
        Some(seq![])
    } else if s[0] == '&' {
        let (c, n) = if seq!['&', 'a', 'm', 'p', ';'].is_prefix_of(s) {
            ('&', 5int)
        } else if seq!['&', 'l', 't', ';'].is_prefix_of(s) {
            ('<', 4int)
        } else if seq!['&', 'g', 't', ';'].is_prefix_of(s) {
            ('>', 4int)
        } else if seq!['&', 'q', 'u', 'o', 't', ';'].is_prefix_of(s) {
            ('"', 6int)
        } else if seq!['&', 'a', 'p', 'o', 's', ';'].is_prefix_of(s) {
            ('\'', 6int)
        } else {
            ('&', 0int)
        };
        if n == 0 {
            None
        } else {
            match xml_unescape(s.skip(n)) {
                Some(rest) => Some(seq![c] + rest),
                None => None,
            }
        }
    } else {
        match xml_unescape(s.drop_first()) {
            Some(rest) => Some(seq![s[0]] + rest),
            None => None,
        }
    }
}

proof fn lemma_xml_escape_front(s: Seq<char>)
    requires
        s.len() > 0,
    ensures
        xml_escape(s) == xml_escape_char(s[0]) + xml_escape(s.drop_first()),
    decreases s.len(),
{
    if s.len() == 1 {
        assert(s.drop_last() =~= Seq::<char>::empty());
        assert(s.drop_first() =~= Seq::<char>::empty());
        assert(xml_escape(s.drop_last()) =~= Seq::<char>::empty());
        assert(s.last() == s[0]);
        assert(xml_escape(s) =~= xml_escape_char(s[0]));
    } else {
        lemma_xml_escape_front(s.drop_last());
        assert(s.drop_last().drop_first() =~= s.drop_first().drop_last());
        assert(xml_escape(s) =~= xml_escape_char(s[0]) + xml_escape(s.drop_first()));
    }
}

/// Unescaping escaped XML text gives the text that was escaped.
pub proof fn lemma_xml_roundtrip(s: Seq<char>)
    ensures
        xml_unescape(xml_escape(s)) == Some(s),
    decreases s.len(),
{
    if s.len() > 0 {
        let c = s[0];
        let rest = xml_escape(s.drop_first());
        lemma_xml_escape_front(s);
        lemma_xml_roundtrip(s.drop_first());
        let e = xml_escape_char(c) + rest;
        let n = xml_escape_char(c).len() as int;
        assert(e.skip(n) =~= rest);
        assert(xml_escape_char(c).is_prefix_of(e));
        if c == '&' || c == '<' || c == '>' || c == '"' || c == '\'' {
            assert(e[0] == '&');
            assert(e[1] == xml_escape_char(c)[1]);
        } else {
            assert(e.drop_first() =~= rest);
        }
        assert(seq![c] + s.drop_first() =~= s);
    }
}

/// Escaped XML text holds none of `<`, `>`, `"` and `'`, and every `&` in it
/// begins an entity reference.
pub proof fn lemma_xml_escape_safe(s: Seq<char>)
    ensures
        forall|i: int|
            0 <= i < xml_escape(s).len() ==> {
                let c = #[trigger] xml_escape(s)[i];
                c != '<' && c != '>' && c != '"' && c != '\''
            },
    decreases s.len(),
{
    if s.len() > 0 {
        lemma_xml_escape_safe(s.drop_last());
        let a = xml_escape(s.drop_last());
        let b = xml_escape_char(s.last());
        assert forall|i: int| 0 <= i < xml_escape(s).len() implies {
            let c = #[trigger] xml_escape(s)[i];
            c != '<' && c != '>' && c != '"' && c != '\''
        } by {
            if i < a.len() {
                assert(xml_escape(s)[i] == a[i]);
            } else {
                assert(xml_escape(s)[i] == b[i - a.len()]);
            }
        }
    }
}

/// A string without NUL characters has no zero unit in its UTF-16 encoding, so
/// the zero that `wide_null` appends is the only one and ends the string.
pub proof fn lemma_utf16_no_zero(s: Seq<char>)
    requires
        !s.contains('\0'),
    ensures
        forall|i: int| 0 <= i < encode_utf16(s).len() ==> #[trigger] encode_utf16(s)[i] != 0,
    decreases s.len(),
{
    if s.len() > 0 {
        assert(!s.drop_last().contains('\0')) by {
            if s.drop_last().contains('\0') {
                let k = choose|k: int| 0 <= k < s.drop_last().len() && s.drop_last()[k] == '\0';
                assert(s[k] == '\0');
            }
        }
        lemma_utf16_no_zero(s.drop_last());
        let a = encode_utf16(s.drop_last());
        let b = utf16_units(s.last());
        assert(s.last() != '\0') by {
            assert(s[s.len() - 1] == s.last());
        }
        assert forall|i: int| 0 <= i < encode_utf16(s).len() implies #[trigger] encode_utf16(s)[i]
            != 0 by {
            if i < a.len() {
                assert(encode_utf16(s)[i] == a[i]);
            } else {
                let c = s.last();
                assert(c as u32 != 0) by {
                    if c as u32 == 0 {
                        vstd::utf8::char_u32_cast(c, 0);
                        vstd::utf8::char_u32_cast('\0', 0);
                    }
                }
                vstd::utf8::char_is_scalar(c);
                assert(b[i - a.len()] != 0);
                assert(encode_utf16(s)[i] == b[i - a.len()]);
            }
        }
    }
}

} // verus!
