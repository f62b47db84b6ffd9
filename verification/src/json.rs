//! The persisted file format: a pretty-printed JSON array of account
//! records, each `{name, secret, digits, period, algorithm, issuer}`.
//!
//! Both directions are specified as functions on character sequences:
//! [`spec_emit_accounts`] gives the exact text written for a sequence of
//! accounts, and [`spec_parse_accounts`] gives the records read from a
//! text, or nothing when the text is not in the expected format. The
//! executable emitter and parser are proved equal to these functions, and
//! the round trip (parsing an emitted text yields the original accounts)
//! is proved about the specifications themselves.

use vstd::prelude::*;

use crate::account::{Account, AccountView};
use crate::strutil::chars_to_string;
use crate::totp::Algorithm;

verus! {

// ---------------------------------------------------------------------
// Character classes
// ---------------------------------------------------------------------
pub const HEX_CHARS: [char; 16] = [
    '0',
    '1',
    '2',
    '3',
    '4',
    '5',
    '6',
    '7',
    '8',
    '9',
    'a',
    'b',
    'c',
    'd',
    'e',
    'f',
];

/// JSON insignificant whitespace.
pub open spec fn is_json_ws(c: char) -> bool {
    c == ' ' || c == '\n' || c == '\t' || c == '\r'
}

/// A decimal digit character.
pub open spec fn is_digit_char(c: char) -> bool {
    48 <= c as u32 <= 57
}

/// The numeric value of a decimal digit character.
pub open spec fn digit_value(c: char) -> int {
    c as u32 - 48
}

/// The lowercase hex digit character for a value below sixteen.
pub open spec fn hex_digit_char(d: int) -> char
    recommends
        0 <= d < 16,
{
    HEX_CHARS@[d]
}

/// The numeric value of a hex digit character in either case, or -1.
pub open spec fn hex_value(c: char) -> int {
    if 48 <= c as u32 <= 57 {
        c as u32 - 48
    } else if 97 <= c as u32 <= 102 {
        c as u32 - 87
    } else if 65 <= c as u32 <= 70 {
        c as u32 - 55
    } else {
        -1
    }
}

/// A character that is written into a JSON string without escaping.
pub open spec fn is_plain_char(c: char) -> bool {
    c != '"' && c != '\\' && c as u32 >= 0x20
}

// ---------------------------------------------------------------------
// Whitespace, spec and exec
// ---------------------------------------------------------------------
/// The suffix that remains after the leading whitespace.
pub open spec fn spec_skip_ws(s: Seq<char>) -> Seq<char>
    decreases s.len(),
{
    if s.len() > 0 && is_json_ws(s[0]) {
        spec_skip_ws(s.skip(1))
    } else {
        s
    }
}

/// Leading whitespace followed by a non-whitespace suffix is skipped
/// exactly.
pub proof fn lemma_skip_ws_run(ws: Seq<char>, t: Seq<char>)
    requires
        forall|i: int| 0 <= i < ws.len() ==> is_json_ws(#[trigger] ws[i]),
        t.len() > 0 ==> !is_json_ws(t[0]),
    ensures
        spec_skip_ws(ws + t) == t,
    decreases ws.len(),
{
    if ws.len() == 0 {
        assert(ws + t =~= t);
        if t.len() > 0 {
            assert(!is_json_ws((ws + t)[0]));
        }
    } else {
        assert((ws + t)[0] == ws[0]);
        assert((ws + t).skip(1) =~= ws.skip(1) + t);
        lemma_skip_ws_run(ws.skip(1), t);
    }
}

fn is_ws_exec(c: char) -> (r: bool)
    ensures
        r == is_json_ws(c),
{
    c == ' ' || c == '\n' || c == '\t' || c == '\r'
}

/// Advances past whitespace, landing on the position whose suffix is
/// `spec_skip_ws` of the starting suffix.
pub(crate) fn skip_ws(s: &Vec<char>, i: usize) -> (j: usize)
    requires
        i <= s@.len(),
    ensures
        i <= j <= s@.len(),
        s@.skip(j as int) == spec_skip_ws(s@.skip(i as int)),
        j < s@.len() ==> !is_json_ws(s@[j as int]),
{
    let mut cur = i;
    while cur < s.len() && is_ws_exec(s[cur])
        invariant
            i <= cur <= s@.len(),
            spec_skip_ws(s@.skip(i as int)) == spec_skip_ws(s@.skip(cur as int)),
        decreases s@.len() - cur,
    {
        proof {
            assert(s@.skip(cur as int)[0] == s@[cur as int]);
            assert(s@.skip(cur as int).skip(1) =~= s@.skip(cur as int + 1));
        }
        cur = cur + 1;
    }
    proof {
        if cur < s@.len() {
            assert(s@.skip(cur as int)[0] == s@[cur as int]);
        }
        assert(spec_skip_ws(s@.skip(cur as int)) == s@.skip(cur as int));
    }
    cur
}

// ---------------------------------------------------------------------
// String escaping: spec
// ---------------------------------------------------------------------
/// The characters written for one string character: the two-character
/// escapes of RFC 8259 for the quote, backslash and the named control
/// characters, a `\u00..` escape for the other control characters, and
/// the character itself otherwise.
pub open spec fn spec_escape_char(c: char) -> Seq<char> {
    if c == '"' {
        seq!['\\', '"']
    } else if c == '\\' {
        seq!['\\', '\\']
    } else if c == '\u{8}' {
        seq!['\\', 'b']
    } else if c == '\u{c}' {
        seq!['\\', 'f']
    } else if c == '\n' {
        seq!['\\', 'n']
    } else if c == '\r' {
        seq!['\\', 'r']
    } else if c == '\t' {
        seq!['\\', 't']
    } else if (c as u32) < 0x20 {
        seq!['\\', 'u', '0', '0', hex_digit_char((c as u32) as int / 16), hex_digit_char((c as u32) as int % 16)]
    } else {
        seq![c]
    }
}

/// The escaped body of a JSON string.
pub open spec fn spec_escape(s: Seq<char>) -> Seq<char>
    decreases s.len(),
{
    if s.len() == 0 {
        Seq::empty()
    } else {
        spec_escape_char(s[0]) + spec_escape(s.skip(1))
    }
}

/// Escaping distributes over appending one character.
pub proof fn lemma_escape_push(s: Seq<char>, c: char)
    ensures
        spec_escape(s.push(c)) == spec_escape(s) + spec_escape_char(c),
    decreases s.len(),
{
    if s.len() == 0 {
        let e = Seq::<char>::empty();
        assert(spec_escape(e) == e);
        assert(s.push(c)[0] == c);
        assert(s.push(c).skip(1) =~= e);
        assert(spec_escape(s.push(c)) == spec_escape_char(c) + spec_escape(e));
        assert(spec_escape(s.push(c)) =~= spec_escape_char(c));
        assert(s =~= e);
        assert(spec_escape(s) + spec_escape_char(c) =~= spec_escape_char(c));
    } else {
        assert(s.push(c)[0] == s[0]);
        assert(s.push(c).skip(1) =~= s.skip(1).push(c));
        lemma_escape_push(s.skip(1), c);
        assert(spec_escape(s.push(c)) =~= spec_escape(s) + spec_escape_char(c));
    }
}

/// A string of plain characters escapes to itself.
pub proof fn lemma_escape_plain(s: Seq<char>)
    requires
        forall|i: int| 0 <= i < s.len() ==> is_plain_char(#[trigger] s[i]),
    ensures
        spec_escape(s) == s,
    decreases s.len(),
{
    if s.len() > 0 {
        assert(is_plain_char(s[0]));
        lemma_escape_plain(s.skip(1));
        assert(spec_escape(s) =~= s);
    }
}

/// The quoted, escaped form of a string value.
pub open spec fn spec_emit_string(s: Seq<char>) -> Seq<char> {
    seq!['"'] + spec_escape(s) + seq!['"']
}

// ---------------------------------------------------------------------
// String escaping: exec
// ---------------------------------------------------------------------
/// Appends the escaped form of one character.
fn emit_char_into(out: &mut Vec<char>, c: char)
    ensures
        final(out)@ == old(out)@ + spec_escape_char(c),
{
    if c == '"' {
        out.push('\\');
        out.push('"');
    } else if c == '\\' {
        out.push('\\');
        out.push('\\');
    } else if c == '\u{8}' {
        out.push('\\');
        out.push('b');
    } else if c == '\u{c}' {
        out.push('\\');
        out.push('f');
    } else if c == '\n' {
        out.push('\\');
        out.push('n');
    } else if c == '\r' {
        out.push('\\');
        out.push('r');
    } else if c == '\t' {
        out.push('\\');
        out.push('t');
    } else if (c as u32) < 0x20 {
        let v = c as u32;
        out.push('\\');
        out.push('u');
        out.push('0');
        out.push('0');
        out.push(HEX_CHARS[(v / 16) as usize]);
        out.push(HEX_CHARS[(v % 16) as usize]);
    } else {
        out.push(c);
    }
    proof {
        assert(final(out)@ =~= old(out)@ + spec_escape_char(c));
    }
}

/// Appends the quoted, escaped form of a character sequence.
pub(crate) fn emit_string_into(out: &mut Vec<char>, s: &Vec<char>)
    ensures
        final(out)@ == old(out)@ + spec_emit_string(s@),
{
    out.push('"');
    let mut i: usize = 0;
    while i < s.len()
        invariant
            i <= s@.len(),
            out@ == old(out)@ + seq!['"'] + spec_escape(s@.take(i as int)),
        decreases s@.len() - i,
    {
        proof {
            assert(s@.take(i as int + 1) =~= s@.take(i as int).push(s@[i as int]));
            lemma_escape_push(s@.take(i as int), s@[i as int]);
        }
        emit_char_into(out, s[i]);
        i = i + 1;
    }
    out.push('"');
    proof {
        assert(s@.take(s@.len() as int) =~= s@);
        assert(final(out)@ =~= old(out)@ + spec_emit_string(s@));
    }
}

// ---------------------------------------------------------------------
// String parsing: spec
// ---------------------------------------------------------------------
/// The character named by a single-letter escape, if the letter is one
/// RFC 8259 allows.
pub open spec fn spec_unescape_simple(e: char) -> Option<char> {
    if e == '"' {
        Some('"')
    } else if e == '\\' {
        Some('\\')
    } else if e == '/' {
        Some('/')
    } else if e == 'b' {
        Some('\u{8}')
    } else if e == 'f' {
        Some('\u{c}')
    } else if e == 'n' {
        Some('\n')
    } else if e == 'r' {
        Some('\r')
    } else if e == 't' {
        Some('\t')
    } else {
        None
    }
}

/// The value of the four hex digits at offset `k`, or -1 when they are
/// missing or not hex.
pub open spec fn spec_hex4(s: Seq<char>, k: int) -> int {
    if 0 <= k && k + 4 <= s.len() && hex_value(s[k]) >= 0 && hex_value(s[k + 1]) >= 0 && hex_value(
        s[k + 2],
    ) >= 0 && hex_value(s[k + 3]) >= 0 {
        hex_value(s[k]) * 0x1000 + hex_value(s[k + 1]) * 0x100 + hex_value(s[k + 2]) * 0x10
            + hex_value(s[k + 3])
    } else {
        -1
    }
}

/// Parses the body of a JSON string, starting after the opening quote:
/// the decoded characters, and the suffix after the closing quote.
/// Surrogate pairs in `\u` escapes are combined; an unpaired surrogate,
/// an unknown escape or a raw control character fails.
pub open spec fn spec_parse_string_body(s: Seq<char>) -> Option<(Seq<char>, Seq<char>)>
    decreases s.len(),
{
    if s.len() == 0 {
        None
    } else if s[0] == '"' {
        Some((Seq::empty(), s.skip(1)))
    } else if s[0] == '\\' {
        if s.len() < 2 {
            None
        } else if s[1] == 'u' {
            let v = spec_hex4(s, 2);
            if v < 0 {
                None
            } else if 0xD800 <= v < 0xDC00 {
                if s.len() >= 12 && s[6] == '\\' && s[7] == 'u' {
                    let w = spec_hex4(s, 8);
                    if 0xDC00 <= w < 0xE000 {
                        let sc = 0x10000 + (v - 0xD800) * 0x400 + (w - 0xDC00);
                        match spec_parse_string_body(s.skip(12)) {
                            None => None,
                            Some(p) => Some((seq![((sc as u32) as char)] + p.0, p.1)),
                        }
                    } else {
                        None
                    }
                } else {
                    None
                }
            } else if 0xDC00 <= v < 0xE000 {
                None
            } else {
                match spec_parse_string_body(s.skip(6)) {
                    None => None,
                    Some(p) => Some((seq![((v as u32) as char)] + p.0, p.1)),
                }
            }
        } else {
            match spec_unescape_simple(s[1]) {
                None => None,
                Some(c) => match spec_parse_string_body(s.skip(2)) {
                    None => None,
                    Some(p) => Some((seq![c] + p.0, p.1)),
                },
            }
        }
    } else if (s[0] as u32) < 0x20 {
        None
    } else {
        match spec_parse_string_body(s.skip(1)) {
            None => None,
            Some(p) => Some((seq![s[0]] + p.0, p.1)),
        }
    }
}

/// Parses a quoted JSON string: the decoded value and the suffix after
/// the closing quote.
pub open spec fn spec_parse_string(s: Seq<char>) -> Option<(Seq<char>, Seq<char>)> {
    if s.len() > 0 && s[0] == '"' {
        spec_parse_string_body(s.skip(1))
    } else {
        None
    }
}

// ---------------------------------------------------------------------
// String parsing: exec
// ---------------------------------------------------------------------
/// The numeric value of a hex digit character, in either case.
fn hex_val(c: char) -> (r: Option<u32>)
    ensures
        r is Some <==> hex_value(c) >= 0,
        r matches Some(v) ==> v == hex_value(c) && v < 16,
{
    let v = c as u32;
    if 48 <= v && v <= 57 {
        Some(v - 48)
    } else if 97 <= v && v <= 102 {
        Some(v - 87)
    } else if 65 <= v && v <= 70 {
        Some(v - 55)
    } else {
        None
    }
}

/// `spec_hex4` reads the same digits whether the position is counted in
/// the whole text or in one of its suffixes.
pub proof fn lemma_hex4_shift(s: Seq<char>, p: int, k: int)
    requires
        0 <= p <= s.len(),
        0 <= k,
    ensures
        spec_hex4(s.skip(p), k) == spec_hex4(s, p + k),
{
    if k + 4 <= s.skip(p).len() {
        assert(s.skip(p)[k] == s[p + k]);
        assert(s.skip(p)[k + 1] == s[p + k + 1]);
        assert(s.skip(p)[k + 2] == s[p + k + 2]);
        assert(s.skip(p)[k + 3] == s[p + k + 3]);
    }
}

/// Reads four hex digits at position `k` of the text.
fn hex4_at(s: &Vec<char>, k: usize) -> (r: Option<u32>)
    ensures
        r is Some <==> spec_hex4(s@, k as int) >= 0,
        r matches Some(v) ==> v == spec_hex4(s@, k as int) && v <= 0xFFFF,
{
    if s.len() < 4 || k > s.len() - 4 {
        return None;
    }
    let v0 = hex_val(s[k]);
    let v1 = hex_val(s[k + 1]);
    let v2 = hex_val(s[k + 2]);
    let v3 = hex_val(s[k + 3]);
    match (v0, v1, v2, v3) {
        (Some(a), Some(b), Some(c), Some(d)) => Some(a * 0x1000 + b * 0x100 + c * 0x10 + d),
        _ => None,
    }
}

/// The exec counterpart of `spec_unescape_simple`.
fn unescape_simple(e: char) -> (r: Option<char>)
    ensures
        r == spec_unescape_simple(e),
{
    if e == '"' {
        Some('"')
    } else if e == '\\' {
        Some('\\')
    } else if e == '/' {
        Some('/')
    } else if e == 'b' {
        Some('\u{8}')
    } else if e == 'f' {
        Some('\u{c}')
    } else if e == 'n' {
        Some('\n')
    } else if e == 'r' {
        Some('\r')
    } else if e == 't' {
        Some('\t')
    } else {
        None
    }
}

/// Parses a JSON string body from position `i`, just after the opening
/// quote: the decoded characters and the position after the closing
/// quote, exactly as `spec_parse_string_body` of the suffix at `i`.
#[verifier::rlimit(60)]
fn parse_string_body(s: &Vec<char>, i: usize) -> (r: Option<(Vec<char>, usize)>)
    requires
        i <= s@.len(),
    ensures
        (match spec_parse_string_body(s@.skip(i as int)) {
            Some(p) => r matches Some(q) && q.0@ == p.0 && i < q.1 <= s@.len() && s@.skip(
                q.1 as int,
            ) == p.1,
            None => r is None,
        }),
{
    let mut pos = i;
    let mut acc: Vec<char> = Vec::new();
    loop
        invariant
            i <= pos <= s@.len(),
            (match spec_parse_string_body(s@.skip(pos as int)) {
                Some(p) => (match spec_parse_string_body(s@.skip(i as int)) {
                    Some(p0) => p0.0 == acc@ + p.0 && p0.1 == p.1,
                    None => false,
                }),
                None => spec_parse_string_body(s@.skip(i as int)) is None,
            }),
        decreases s@.len() - pos,
    {
        let ghost t = s@.skip(pos as int);
        let rem = s.len() - pos;
        if rem == 0 {
            assert(t.len() == 0);
            return None;
        }
        let c = s[pos];
        proof {
            assert(t[0] == c);
        }
        if c == '"' {
            proof {
                assert(t.skip(1) =~= s@.skip(pos as int + 1));
                assert(spec_parse_string_body(t) == Some((Seq::<char>::empty(), t.skip(1))));
                assert(acc@ + Seq::<char>::empty() =~= acc@);
            }
            return Some((acc, pos + 1));
        } else if c == '\\' {
            if rem < 2 {
                assert(t.len() < 2);
                return None;
            }
            let e = s[pos + 1];
            proof {
                assert(t[1] == e);
            }
            if e == 'u' {
                proof {
                    lemma_hex4_shift(s@, pos as int, 2);
                }
                match hex4_at(s, pos + 2) {
                    None => {
                        assert(spec_hex4(t, 2) < 0);
                        return None;
                    },
                    Some(v) => {
                        assert(v == spec_hex4(t, 2));
                        if 0xD800 <= v && v < 0xDC00 {
                            if rem < 12 {
                                assert(t.len() < 12);
                                return None;
                            }
                            if !(s[pos + 6] == '\\' && s[pos + 7] == 'u') {
                                assert(t[6] == s@[pos as int + 6] && t[7] == s@[pos as int + 7]);
                                return None;
                            }
                            proof {
                                assert(t[6] == '\\' && t[7] == 'u');
                                lemma_hex4_shift(s@, pos as int, 8);
                            }
                            match hex4_at(s, pos + 8) {
                                None => {
                                    assert(spec_hex4(t, 8) < 0);
                                    return None;
                                },
                                Some(w) => {
                                    assert(w == spec_hex4(t, 8));
                                    if !(0xDC00 <= w && w < 0xE000) {
                                        return None;
                                    }
                                    let sc: u32 = 0x10000 + (v - 0xD800) * 0x400 + (w - 0xDC00);
                                    match crate::strutil::char_from_u32(sc) {
                                        None => {
                                            proof {
                                                assert(false);
                                            }
                                            return None;
                                        },
                                        Some(c2) => {
                                            proof {
                                                vstd::utf8::char_u32_cast(c2, sc);
                                                assert(t.skip(12) =~= s@.skip(pos as int + 12));
                                                assert(spec_parse_string_body(t) == (
                                                match spec_parse_string_body(t.skip(12)) {
                                                    None => None,
                                                    Some(p) => Some((seq![c2] + p.0, p.1)),
                                                }));
                                                if spec_parse_string_body(t.skip(12)) is Some {
                                                    let p2 = spec_parse_string_body(t.skip(12))->0;
                                                    assert(acc@ + (seq![c2] + p2.0) =~= acc@.push(
                                                        c2,
                                                    ) + p2.0);
                                                }
                                            }
                                            acc.push(c2);
                                            pos = pos + 12;
                                        },
                                    }
                                },
                            }
                        } else if 0xDC00 <= v && v < 0xE000 {
                            return None;
                        } else {
                            match crate::strutil::char_from_u32(v) {
                                None => {
                                    proof {
                                        assert(false);
                                    }
                                    return None;
                                },
                                Some(c2) => {
                                    proof {
                                        vstd::utf8::char_u32_cast(c2, v);
                                        assert(t.skip(6) =~= s@.skip(pos as int + 6));
                                        assert(spec_parse_string_body(t) == (
                                        match spec_parse_string_body(t.skip(6)) {
                                            None => None,
                                            Some(p) => Some((seq![c2] + p.0, p.1)),
                                        }));
                                        if spec_parse_string_body(t.skip(6)) is Some {
                                            let p2 = spec_parse_string_body(t.skip(6))->0;
                                            assert(acc@ + (seq![c2] + p2.0) =~= acc@.push(c2)
                                                + p2.0);
                                        }
                                    }
                                    acc.push(c2);
                                    pos = pos + 6;
                                },
                            }
                        }
                    },
                }
            } else {
                match unescape_simple(e) {
                    None => {
                        return None;
                    },
                    Some(c2) => {
                        proof {
                            assert(t.skip(2) =~= s@.skip(pos as int + 2));
                            assert(spec_parse_string_body(t) == (
                            match spec_parse_string_body(t.skip(2)) {
                                None => None,
                                Some(p) => Some((seq![c2] + p.0, p.1)),
                            }));
                            if spec_parse_string_body(t.skip(2)) is Some {
                                let p2 = spec_parse_string_body(t.skip(2))->0;
                                assert(acc@ + (seq![c2] + p2.0) =~= acc@.push(c2) + p2.0);
                            }
                        }
                        acc.push(c2);
                        pos = pos + 2;
                    },
                }
            }
        } else if (c as u32) < 0x20 {
            return None;
        } else {
            proof {
                assert(t.skip(1) =~= s@.skip(pos as int + 1));
                assert(spec_parse_string_body(t) == (match spec_parse_string_body(t.skip(1)) {
                    None => None,
                    Some(p) => Some((seq![c] + p.0, p.1)),
                }));
                if spec_parse_string_body(t.skip(1)) is Some {
                    let p2 = spec_parse_string_body(t.skip(1))->0;
                    assert(acc@ + (seq![c] + p2.0) =~= acc@.push(c) + p2.0);
                }
            }
            acc.push(c);
            pos = pos + 1;
        }
    }
}

// ---------------------------------------------------------------------
// Numbers
// ---------------------------------------------------------------------
/// Accumulates decimal digits from the front of `s` onto `acc`, failing
/// on a value beyond `u64::MAX`; stops at the first non-digit.
pub open spec fn spec_parse_digits(s: Seq<char>, acc: u64) -> Option<(u64, Seq<char>)>
    decreases s.len(),
{
    if s.len() > 0 && is_digit_char(s[0]) {
        let v = acc * 10 + digit_value(s[0]);
        if v > u64::MAX {
            None
        } else {
            spec_parse_digits(s.skip(1), v as u64)
        }
    } else {
        Some((acc, s))
    }
}

/// Parses a JSON non-negative integer: one digit or more, no leading
/// zero, value within `u64`.
pub open spec fn spec_parse_number(s: Seq<char>) -> Option<(u64, Seq<char>)> {
    if s.len() == 0 || !is_digit_char(s[0]) {
        None
    } else if s[0] == '0' {
        Some((0u64, s.skip(1)))
    } else {
        spec_parse_digits(s, 0)
    }
}

/// The decimal representation of `n`, most significant digit first, no
/// leading zeros.
pub open spec fn spec_dec_nat(n: nat) -> Seq<char>
    decreases n,
{
    if n < 10 {
        seq![crate::totp::spec_digit_char(n as int)]
    } else {
        spec_dec_nat(n / 10) + seq![crate::totp::spec_digit_char((n % 10) as int)]
    }
}

/// The decimal representation of a `u64`.
pub open spec fn spec_emit_u64(n: u64) -> Seq<char> {
    spec_dec_nat(n as nat)
}

/// The value of a digit string, most significant digit first.
pub open spec fn spec_digits_value(ds: Seq<char>) -> int
    decreases ds.len(),
{
    if ds.len() == 0 {
        0
    } else {
        digit_value(ds[0]) * spec_pow10_int((ds.len() - 1) as nat) + spec_digits_value(ds.skip(1))
    }
}

/// Ten to the power `d`, as an `int` for use in value computations.
pub open spec fn spec_pow10_int(d: nat) -> int {
    crate::totp::spec_pow10(d) as int
}

/// Ten to any power is at least one.
pub proof fn lemma_pow10_pos(d: nat)
    ensures
        spec_pow10_int(d) >= 1,
    decreases d,
{
    if d > 0 {
        lemma_pow10_pos((d - 1) as nat);
    }
}

/// The decimal digit characters carry their values, and only zero is
/// written with the zero digit.
pub proof fn lemma_digit_char_value(d: int)
    requires
        0 <= d < 10,
    ensures
        digit_value(crate::totp::spec_digit_char(d)) == d,
        is_digit_char(crate::totp::spec_digit_char(d)),
        (crate::totp::spec_digit_char(d) == '0') <==> (d == 0),
{
    if d == 0 {
        assert(crate::totp::DIGIT_CHARS@[0] == '0');
    } else if d == 1 {
        assert(crate::totp::DIGIT_CHARS@[1] == '1');
    } else if d == 2 {
        assert(crate::totp::DIGIT_CHARS@[2] == '2');
    } else if d == 3 {
        assert(crate::totp::DIGIT_CHARS@[3] == '3');
    } else if d == 4 {
        assert(crate::totp::DIGIT_CHARS@[4] == '4');
    } else if d == 5 {
        assert(crate::totp::DIGIT_CHARS@[5] == '5');
    } else if d == 6 {
        assert(crate::totp::DIGIT_CHARS@[6] == '6');
    } else if d == 7 {
        assert(crate::totp::DIGIT_CHARS@[7] == '7');
    } else if d == 8 {
        assert(crate::totp::DIGIT_CHARS@[8] == '8');
    } else {
        assert(crate::totp::DIGIT_CHARS@[9] == '9');
    }
}

/// Appending a digit multiplies the value by ten and adds the digit.
pub proof fn lemma_digits_value_push(ds: Seq<char>, c: char)
    ensures
        spec_digits_value(ds.push(c)) == spec_digits_value(ds) * 10 + digit_value(c),
    decreases ds.len(),
{
    if ds.len() == 0 {
        assert(ds.push(c)[0] == c);
        assert(ds.push(c).skip(1) =~= Seq::<char>::empty());
        assert(spec_digits_value(Seq::<char>::empty()) == 0);
        assert(spec_pow10_int(0) == 1);
        assert(digit_value(c) * 1 == digit_value(c));
    } else {
        assert(ds.push(c)[0] == ds[0]);
        assert(ds.push(c).skip(1) =~= ds.skip(1).push(c));
        lemma_digits_value_push(ds.skip(1), c);
        let a = digit_value(ds[0]);
        let p = spec_pow10_int((ds.len() - 1) as nat);
        let v = spec_digits_value(ds.skip(1));
        assert(spec_pow10_int(ds.len() as nat) == 10 * p);
        assert(spec_digits_value(ds) == a * p + v);
        assert(spec_digits_value(ds.push(c)) == a * (10 * p) + (v * 10 + digit_value(c)));
        assert(a * (10 * p) == (a * p) * 10) by (nonlinear_arith);
        assert((a * p + v) * 10 == (a * p) * 10 + v * 10) by (nonlinear_arith);
    }
}

/// The value of a digit string of digits only is non-negative.
pub proof fn lemma_digits_value_nonneg(ds: Seq<char>)
    requires
        forall|i: int| 0 <= i < ds.len() ==> is_digit_char(#[trigger] ds[i]),
    ensures
        spec_digits_value(ds) >= 0,
    decreases ds.len(),
{
    if ds.len() > 0 {
        assert(is_digit_char(ds[0]));
        lemma_digits_value_nonneg(ds.skip(1));
        let a = digit_value(ds[0]);
        let p = spec_pow10_int((ds.len() - 1) as nat);
        lemma_pow10_pos((ds.len() - 1) as nat);
        assert(a * p >= 0) by (nonlinear_arith)
            requires
                a >= 0,
                p >= 0,
        ;
    }
}

/// The decimal representation of `n` is nonempty, consists of digits,
/// has value `n`, and starts with a nonzero digit unless `n` is zero.
pub proof fn lemma_dec_nat_shape(n: nat)
    ensures
        spec_dec_nat(n).len() >= 1,
        forall|i: int| 0 <= i < spec_dec_nat(n).len() ==> is_digit_char(#[trigger] spec_dec_nat(n)[i]),
        spec_digits_value(spec_dec_nat(n)) == n,
        n > 0 ==> spec_dec_nat(n)[0] != '0',
    decreases n,
{
    if n < 10 {
        lemma_digit_char_value(n as int);
        let ds = spec_dec_nat(n);
        assert(ds[0] == crate::totp::spec_digit_char(n as int));
        assert(ds.skip(1) =~= Seq::<char>::empty());
        assert(spec_digits_value(Seq::<char>::empty()) == 0);
        assert(spec_pow10_int(0) == 1);
        assert(spec_digits_value(ds) == digit_value(ds[0]) * spec_pow10_int(0));
        assert(digit_value(ds[0]) * 1 == digit_value(ds[0]));
    } else {
        lemma_dec_nat_shape(n / 10);
        lemma_digit_char_value((n % 10) as int);
        let head = spec_dec_nat(n / 10);
        let c = crate::totp::spec_digit_char((n % 10) as int);
        let ds = spec_dec_nat(n);
        assert(ds =~= head.push(c));
        lemma_digits_value_push(head, c);
        assert(spec_digits_value(ds) == (n / 10) * 10 + (n % 10));
        assert(ds[0] == head[0]);
        assert(forall|i: int| 0 <= i < ds.len() ==> is_digit_char(#[trigger] ds[i])) by {
            assert(forall|i: int|
                0 <= i < head.len() ==> is_digit_char(#[trigger] head[i]) && ds[i] == head[i]);
            assert(ds[ds.len() - 1] == c);
        }
    }
}

/// Parsing digit characters followed by a non-digit yields the expected
/// accumulated value.
pub proof fn lemma_parse_digits_append(ds: Seq<char>, rest: Seq<char>, acc: u64)
    requires
        forall|i: int| 0 <= i < ds.len() ==> is_digit_char(#[trigger] ds[i]),
        rest.len() > 0 ==> !is_digit_char(rest[0]),
        acc * spec_pow10_int(ds.len() as nat) + spec_digits_value(ds) <= u64::MAX,
    ensures
        spec_parse_digits(ds + rest, acc) == Some(
            ((acc * spec_pow10_int(ds.len() as nat) + spec_digits_value(ds)) as u64, rest),
        ),
    decreases ds.len(),
{
    let s = ds + rest;
    if ds.len() == 0 {
        assert(s =~= rest);
        assert(acc * spec_pow10_int(0) == acc * 1);
        if rest.len() > 0 {
            assert(!is_digit_char(s[0]));
        }
    } else {
        assert(s[0] == ds[0]);
        assert(is_digit_char(ds[0]));
        let d0 = digit_value(ds[0]);
        let p = spec_pow10_int((ds.len() - 1) as nat);
        let tail = ds.skip(1);
        lemma_pow10_pos((ds.len() - 1) as nat);
        lemma_digits_value_nonneg(tail);
        assert(spec_pow10_int(ds.len() as nat) == 10 * p);
        let acc2 = acc * 10 + d0;
        let v = spec_digits_value(tail);
        assert(spec_digits_value(ds) == d0 * (spec_pow10_int((ds.len() - 1) as nat)) + v);
        // the total value rewritten around the new accumulator
        assert(acc * (10 * p) + d0 * p == (acc * 10 + d0) * p) by (nonlinear_arith);
        assert(acc2 <= acc2 * p + v) by (nonlinear_arith)
            requires
                acc2 >= 0,
                p >= 1,
                v >= 0,
        ;
        assert(s.skip(1) =~= tail + rest);
        lemma_parse_digits_append(tail, rest, acc2 as u64);
    }
}

/// Parsing the decimal representation of `n`, followed by anything that
/// does not start with a digit, yields `n`.
pub proof fn lemma_parse_number_emit(n: u64, rest: Seq<char>)
    requires
        rest.len() > 0 ==> !is_digit_char(rest[0]),
    ensures
        spec_parse_number(spec_emit_u64(n) + rest) == Some((n, rest)),
{
    let ds = spec_dec_nat(n as nat);
    let s = ds + rest;
    lemma_dec_nat_shape(n as nat);
    assert(s[0] == ds[0]);
    if n == 0 {
        assert(ds =~= seq!['0']);
        assert(s[0] == '0');
        assert(s.skip(1) =~= rest);
    } else {
        assert(s[0] != '0');
        assert(0 * spec_pow10_int(ds.len() as nat) == 0);
        lemma_parse_digits_append(ds, rest, 0);
    }
}
fn parse_number(s: &Vec<char>, i: usize) -> (r: Option<(u64, usize)>)
    requires
        i <= s@.len(),
    ensures
        (match spec_parse_number(s@.skip(i as int)) {
            Some(p) => r matches Some(q) && q.0 == p.0 && i < q.1 <= s@.len() && s@.skip(
                q.1 as int,
            ) == p.1,
            None => r is None,
        }),
{
    let ghost t = s@.skip(i as int);
    if i == s.len() {
        return None;
    }
    let c0 = s[i];
    proof {
        assert(t[0] == c0);
    }
    let v0 = c0 as u32;
    if !(48 <= v0 && v0 <= 57) {
        return None;
    }
    if c0 == '0' {
        proof {
            assert(t.skip(1) =~= s@.skip(i as int + 1));
        }
        return Some((0, i + 1));
    }
    let mut pos = i;
    let mut acc: u64 = 0;
    loop
        invariant
            i <= pos <= s@.len(),
            (match spec_parse_digits(s@.skip(pos as int), acc) {
                Some(p) => spec_parse_digits(s@.skip(i as int), 0) == Some(p),
                None => spec_parse_digits(s@.skip(i as int), 0) is None,
            }),
            spec_parse_number(s@.skip(i as int)) == spec_parse_digits(s@.skip(i as int), 0),
            pos == i ==> acc == 0,
            pos > i || (s@.len() > i && is_digit_char(s@[i as int]) && s@[i as int] != '0'),
        decreases s@.len() - pos,
    {
        let ghost u = s@.skip(pos as int);
        if pos == s.len() {
            assert(u.len() == 0);
            assert(pos > i);
            return Some((acc, pos));
        }
        let c = s[pos];
        proof {
            assert(u[0] == c);
        }
        let v = c as u32;
        if !(48 <= v && v <= 57) {
            assert(!is_digit_char(u[0]));
            assert(pos > i) by {
                if pos == i {
                    assert(u[0] == s@[i as int]);
                }
            }
            return Some((acc, pos));
        }
        let d = (v - 48) as u64;
        proof {
            assert(digit_value(c) == d);
        }
        let step = match acc.checked_mul(10) {
            Some(m) => m.checked_add(d),
            None => None,
        };
        match step {
            None => {
                assert(acc * 10 + digit_value(u[0]) > u64::MAX);
                return None;
            },
            Some(acc2) => {
                proof {
                    assert(acc2 == acc * 10 + digit_value(u[0]));
                    assert(u.skip(1) =~= s@.skip(pos as int + 1));
                }
                acc = acc2;
                pos = pos + 1;
            },
        }
    }
}

/// Appends the decimal representation of `n`.
pub(crate) fn emit_u64_into(out: &mut Vec<char>, n: u64)
    ensures
        final(out)@ == old(out)@ + spec_emit_u64(n),
    decreases n,
{
    if n < 10 {
        out.push(crate::totp::DIGIT_CHARS[n as usize]);
        proof {
            assert(final(out)@ =~= old(out)@ + spec_emit_u64(n));
        }
    } else {
        emit_u64_into(out, n / 10);
        out.push(crate::totp::DIGIT_CHARS[(n % 10) as usize]);
        proof {
            assert(final(out)@ =~= old(out)@ + spec_emit_u64(n));
        }
    }
}

// ---------------------------------------------------------------------
// Records: spec
// ---------------------------------------------------------------------
/// The field names of a record object.
pub open spec fn key_name_chars() -> Seq<char> {
    seq!['n', 'a', 'm', 'e']
}

pub open spec fn key_secret_chars() -> Seq<char> {
    seq!['s', 'e', 'c', 'r', 'e', 't']
}

pub open spec fn key_digits_chars() -> Seq<char> {
    seq!['d', 'i', 'g', 'i', 't', 's']
}

pub open spec fn key_period_chars() -> Seq<char> {
    seq!['p', 'e', 'r', 'i', 'o', 'd']
}

pub open spec fn key_algorithm_chars() -> Seq<char> {
    seq!['a', 'l', 'g', 'o', 'r', 'i', 't', 'h', 'm']
}

pub open spec fn key_issuer_chars() -> Seq<char> {
    seq!['i', 's', 's', 'u', 'e', 'r']
}

/// The stable string form of each algorithm.
pub open spec fn algo_chars(a: Algorithm) -> Seq<char> {
    match a {
        Algorithm::Sha1 => seq!['S', 'H', 'A', '1'],
        Algorithm::Sha256 => seq!['S', 'H', 'A', '2', '5', '6'],
        Algorithm::Sha512 => seq!['S', 'H', 'A', '5', '1', '2'],
    }
}

/// The fields seen so far while reading one record object.
pub ghost struct PartialView {
    pub name: Option<Seq<char>>,
    pub secret: Option<Seq<char>>,
    pub digits: Option<u64>,
    pub period: Option<u64>,
    pub algorithm: Option<Algorithm>,
    pub issuer: Option<Option<Seq<char>>>,
}

/// A record with no fields seen yet.
pub open spec fn spec_empty_partial() -> PartialView {
    PartialView {
        name: None,
        secret: None,
        digits: None,
        period: None,
        algorithm: None,
        issuer: None,
    }
}

/// Parses the value of one member, keyed by the member's name, and
/// stores it into the partial record. An unknown or repeated key fails;
/// an algorithm string other than the three supported names fails.
pub open spec fn spec_parse_member_value(key: Seq<char>, p: PartialView, s: Seq<char>) -> Option<
    (PartialView, Seq<char>),
> {
    if key == key_name_chars() {
        if p.name is Some {
            None
        } else {
            match spec_parse_string(s) {
                None => None,
                Some(q) => Some((PartialView { name: Some(q.0), ..p }, q.1)),
            }
        }
    } else if key == key_secret_chars() {
        if p.secret is Some {
            None
        } else {
            match spec_parse_string(s) {
                None => None,
                Some(q) => Some((PartialView { secret: Some(q.0), ..p }, q.1)),
            }
        }
    } else if key == key_digits_chars() {
        if p.digits is Some {
            None
        } else {
            match spec_parse_number(s) {
                None => None,
                Some(q) => Some((PartialView { digits: Some(q.0), ..p }, q.1)),
            }
        }
    } else if key == key_period_chars() {
        if p.period is Some {
            None
        } else {
            match spec_parse_number(s) {
                None => None,
                Some(q) => Some((PartialView { period: Some(q.0), ..p }, q.1)),
            }
        }
    } else if key == key_algorithm_chars() {
        if p.algorithm is Some {
            None
        } else {
            match spec_parse_string(s) {
                None => None,
                Some(q) => {
                    if q.0 == algo_chars(Algorithm::Sha1) {
                        Some((PartialView { algorithm: Some(Algorithm::Sha1), ..p }, q.1))
                    } else if q.0 == algo_chars(Algorithm::Sha256) {
                        Some((PartialView { algorithm: Some(Algorithm::Sha256), ..p }, q.1))
                    } else if q.0 == algo_chars(Algorithm::Sha512) {
                        Some((PartialView { algorithm: Some(Algorithm::Sha512), ..p }, q.1))
                    } else {
                        None
                    }
                },
            }
        }
    } else if key == key_issuer_chars() {
        if p.issuer is Some {
            None
        } else {
            if s.len() >= 4 && s[0] == 'n' && s[1] == 'u' && s[2] == 'l' && s[3] == 'l' {
                Some((PartialView { issuer: Some(None), ..p }, s.skip(4)))
            } else {
                match spec_parse_string(s) {
                    None => None,
                    Some(q) => Some((PartialView { issuer: Some(Some(q.0)), ..p }, q.1)),
                }
            }
        }
    } else {
        None
    }
}

/// Parses the members of a record object, starting at the first key's
/// opening quote, through the closing brace.
pub open spec fn spec_parse_members(s: Seq<char>, p: PartialView) -> Option<
    (PartialView, Seq<char>),
>
    decreases s.len(),
{
    match spec_parse_string(s) {
        None => None,
        Some(k) => {
            let r2 = spec_skip_ws(k.1);
            if r2.len() == 0 || r2[0] != ':' {
                None
            } else {
                let r3 = spec_skip_ws(r2.skip(1));
                match spec_parse_member_value(k.0, p, r3) {
                    None => None,
                    Some(q) => {
                        let r5 = spec_skip_ws(q.1);
                        if r5.len() == 0 {
                            None
                        } else if r5[0] == ',' {
                            let r6 = spec_skip_ws(r5.skip(1));
                            if r6.len() < s.len() {
                                spec_parse_members(r6, q.0)
                            } else {
                                None
                            }
                        } else if r5[0] == '}' {
                            Some((q.0, r5.skip(1)))
                        } else {
                            None
                        }
                    },
                }
            }
        },
    }
}

/// Closes a record: name and secret are required, the other fields take
/// their documented defaults, and the digit count and period must be in
/// range.
pub open spec fn spec_finish_record(p: PartialView) -> Option<AccountView> {
    match (p.name, p.secret) {
        (Some(n), Some(sec)) => {
            let digits = match p.digits {
                Some(d) => d,
                None => 6u64,
            };
            let period = match p.period {
                Some(d) => d,
                None => 30u64,
            };
            let algorithm = match p.algorithm {
                Some(a) => a,
                None => Algorithm::Sha1,
            };
            let issuer = match p.issuer {
                Some(i) => i,
                None => None,
            };
            if (digits == 6 || digits == 7 || digits == 8) && period > 0 {
                Some(
                    AccountView {
                        name: n,
                        secret: sec,
                        digits: digits as usize,
                        period,
                        algorithm,
                        issuer,
                    },
                )
            } else {
                None
            }
        },
        _ => None,
    }
}

/// Parses one record object, starting at its opening brace.
pub open spec fn spec_parse_record(s: Seq<char>) -> Option<(AccountView, Seq<char>)> {
    if s.len() == 0 || s[0] != '{' {
        None
    } else {
        let r1 = spec_skip_ws(s.skip(1));
        match spec_parse_members(r1, spec_empty_partial()) {
            None => None,
            Some(q) => match spec_finish_record(q.0) {
                None => None,
                Some(a) => Some((a, q.1)),
            },
        }
    }
}

/// Parses the records of a nonempty array, starting at the first
/// record's opening brace, through the closing bracket.
pub open spec fn spec_parse_records(s: Seq<char>, acc: Seq<AccountView>) -> Option<
    (Seq<AccountView>, Seq<char>),
>
    decreases s.len(),
{
    match spec_parse_record(s) {
        None => None,
        Some(q) => {
            let r2 = spec_skip_ws(q.1);
            if r2.len() == 0 {
                None
            } else if r2[0] == ',' {
                let r3 = spec_skip_ws(r2.skip(1));
                if r3.len() < s.len() {
                    spec_parse_records(r3, acc.push(q.0))
                } else {
                    None
                }
            } else if r2[0] == ']' {
                Some((acc.push(q.0), r2.skip(1)))
            } else {
                None
            }
        },
    }
}

/// Parses a whole storage text: a JSON array of record objects with
/// nothing but whitespace around it.
pub open spec fn spec_parse_accounts(s: Seq<char>) -> Option<Seq<AccountView>> {
    let r = spec_skip_ws(s);
    if r.len() == 0 || r[0] != '[' {
        None
    } else {
        let r1 = spec_skip_ws(r.skip(1));
        if r1.len() > 0 && r1[0] == ']' {
            if spec_skip_ws(r1.skip(1)).len() == 0 {
                Some(Seq::empty())
            } else {
                None
            }
        } else {
            match spec_parse_records(r1, Seq::empty()) {
                None => None,
                Some(q) => {
                    if spec_skip_ws(q.1).len() == 0 {
                        Some(q.0)
                    } else {
                        None
                    }
                },
            }
        }
    }
}

// ---------------------------------------------------------------------
// Records: emit spec
// ---------------------------------------------------------------------
/// The four-space indent of a field line.
pub open spec fn field_indent() -> Seq<char> {
    seq![' ', ' ', ' ', ' ']
}

/// The form of an algorithm value in the file.
pub open spec fn spec_emit_algorithm(a: Algorithm) -> Seq<char> {
    seq!['"'] + algo_chars(a) + seq!['"']
}

/// The form of an issuer value in the file: `null` or a string.
pub open spec fn spec_emit_issuer(iss: Option<Seq<char>>) -> Seq<char> {
    match iss {
        None => seq!['n', 'u', 'l', 'l'],
        Some(s) => spec_emit_string(s),
    }
}

/// One field line: indent, quoted key, colon, value.
pub open spec fn spec_field_line(key: Seq<char>, value: Seq<char>) -> Seq<char> {
    field_indent() + spec_emit_string(key) + seq![':', ' '] + value
}

/// The six field lines of one record, in declaration order.
pub open spec fn spec_account_fields(a: AccountView) -> Seq<char> {
    spec_field_line(key_name_chars(), spec_emit_string(a.name)) + seq![',', '\n']
        + spec_field_line(key_secret_chars(), spec_emit_string(a.secret)) + seq![',', '\n']
        + spec_field_line(key_digits_chars(), spec_emit_u64(a.digits as u64)) + seq![',', '\n']
        + spec_field_line(key_period_chars(), spec_emit_u64(a.period)) + seq![',', '\n']
        + spec_field_line(key_algorithm_chars(), spec_emit_algorithm(a.algorithm)) + seq![',', '\n']
        + spec_field_line(key_issuer_chars(), spec_emit_issuer(a.issuer))
}

/// The text written for one record: an indented, pretty-printed object
/// with all six fields in declaration order.
pub open spec fn spec_emit_account(a: AccountView) -> Seq<char> {
    seq![' ', ' ', '{', '\n'] + spec_account_fields(a) + seq!['\n', ' ', ' ', '}']
}

/// The records of a nonempty array, separated by commas.
pub open spec fn spec_emit_records(accts: Seq<AccountView>) -> Seq<char>
    decreases accts.len(),
{
    if accts.len() == 0 {
        Seq::empty()
    } else if accts.len() == 1 {
        spec_emit_account(accts[0])
    } else {
        spec_emit_account(accts[0]) + seq![',', '\n'] + spec_emit_records(accts.skip(1))
    }
}

/// The whole storage text written for a sequence of accounts.
pub open spec fn spec_emit_accounts(accts: Seq<AccountView>) -> Seq<char> {
    if accts.len() == 0 {
        seq!['[', ']']
    } else {
        seq!['[', '\n'] + spec_emit_records(accts) + seq!['\n', ']']
    }
}

/// Parses a quoted JSON string from position `i`, exactly as
/// `spec_parse_string` of the suffix at `i`.
pub(crate) fn parse_string(s: &Vec<char>, i: usize) -> (r: Option<(Vec<char>, usize)>)
    requires
        i <= s@.len(),
    ensures
        (match spec_parse_string(s@.skip(i as int)) {
            Some(p) => r matches Some(q) && q.0@ == p.0 && i < q.1 <= s@.len() && s@.skip(
                q.1 as int,
            ) == p.1,
            None => r is None,
        }),
{
    let ghost t = s@.skip(i as int);
    if i < s.len() {
        let c = s[i];
        proof {
            assert(t[0] == c);
        }
        if c == '"' {
            proof {
                assert(t.skip(1) =~= s@.skip(i as int + 1));
            }
            parse_string_body(s, i + 1)
        } else {
            None
        }
    } else {
        None
    }
}

// ---------------------------------------------------------------------
// Records: exec parsing
// ---------------------------------------------------------------------
/// Compares a character vector against four given characters.
fn chars_eq_4(v: &Vec<char>, c0: char, c1: char, c2: char, c3: char) -> (r: bool)
    ensures
        r == (v@ == seq![c0, c1, c2, c3]),
{
    let ok = v.len() == 4 && v[0] == c0 && v[1] == c1 && v[2] == c2 && v[3] == c3;
    proof {
        if ok {
            assert(v@ =~= seq![c0, c1, c2, c3]);
        } else if v@ == seq![c0, c1, c2, c3] {
            assert(v@.len() == 4);
            assert(v@[0] == c0 && v@[1] == c1 && v@[2] == c2 && v@[3] == c3);
        }
    }
    ok
}

/// Compares a character vector against six given characters.
pub(crate) fn chars_eq_6(v: &Vec<char>, c0: char, c1: char, c2: char, c3: char, c4: char, c5: char) -> (r:
    bool)
    ensures
        r == (v@ == seq![c0, c1, c2, c3, c4, c5]),
{
    let ok = v.len() == 6 && v[0] == c0 && v[1] == c1 && v[2] == c2 && v[3] == c3 && v[4] == c4
        && v[5] == c5;
    proof {
        if ok {
            assert(v@ =~= seq![c0, c1, c2, c3, c4, c5]);
        } else if v@ == seq![c0, c1, c2, c3, c4, c5] {
            assert(v@.len() == 6);
            assert(v@[0] == c0 && v@[1] == c1 && v@[2] == c2 && v@[3] == c3 && v@[4] == c4 && v@[5]
                == c5);
        }
    }
    ok
}

/// Compares a character vector against nine given characters.
fn chars_eq_9(
    v: &Vec<char>,
    c0: char,
    c1: char,
    c2: char,
    c3: char,
    c4: char,
    c5: char,
    c6: char,
    c7: char,
    c8: char,
) -> (r: bool)
    ensures
        r == (v@ == seq![c0, c1, c2, c3, c4, c5, c6, c7, c8]),
{
    let ok = v.len() == 9 && v[0] == c0 && v[1] == c1 && v[2] == c2 && v[3] == c3 && v[4] == c4
        && v[5] == c5 && v[6] == c6 && v[7] == c7 && v[8] == c8;
    proof {
        if ok {
            assert(v@ =~= seq![c0, c1, c2, c3, c4, c5, c6, c7, c8]);
        } else if v@ == seq![c0, c1, c2, c3, c4, c5, c6, c7, c8] {
            assert(v@.len() == 9);
            assert(v@[0] == c0 && v@[1] == c1 && v@[2] == c2 && v@[3] == c3 && v@[4] == c4 && v@[5]
                == c5 && v@[6] == c6 && v@[7] == c7 && v@[8] == c8);
        }
    }
    ok
}

/// The fields seen so far while reading one record object.
struct PartialRecord {
    name: Option<String>,
    secret: Option<String>,
    digits: Option<u64>,
    period: Option<u64>,
    algorithm: Option<Algorithm>,
    issuer: Option<Option<String>>,
}

impl PartialRecord {
    /// The mathematical value of the partial record.
    closed spec fn pview(&self) -> PartialView {
        PartialView {
            name: self.name.deep_view(),
            secret: self.secret.deep_view(),
            digits: self.digits,
            period: self.period,
            algorithm: self.algorithm,
            issuer: self.issuer.deep_view(),
        }
    }

    fn empty() -> (r: PartialRecord)
        ensures
            r.pview() == spec_empty_partial(),
    {
        PartialRecord {
            name: None,
            secret: None,
            digits: None,
            period: None,
            algorithm: None,
            issuer: None,
        }
    }
}

/// Parses the value of one member from position `i`, exactly as
/// `spec_parse_member_value` of the suffix at `i`.
#[verifier::rlimit(60)]
fn parse_member_value(key: &Vec<char>, p: PartialRecord, s: &Vec<char>, i: usize) -> (r: Option<
    (PartialRecord, usize),
>)
    requires
        i <= s@.len(),
    ensures
        (match spec_parse_member_value(key@, p.pview(), s@.skip(i as int)) {
            Some(q) => r matches Some(t) && t.0.pview() == q.0 && i <= t.1 <= s@.len() && s@.skip(
                t.1 as int,
            ) == q.1,
            None => r is None,
        }),
{
    let ghost t = s@.skip(i as int);
    if chars_eq_4(key, 'n', 'a', 'm', 'e') {
        if p.name.is_some() {
            return None;
        }
        match parse_string(s, i) {
            None => None,
            Some(q) => {
                let v = chars_to_string(&q.0);
                Some((PartialRecord { name: Some(v), ..p }, q.1))
            },
        }
    } else if chars_eq_6(key, 's', 'e', 'c', 'r', 'e', 't') {
        if p.secret.is_some() {
            return None;
        }
        match parse_string(s, i) {
            None => None,
            Some(q) => {
                let v = chars_to_string(&q.0);
                Some((PartialRecord { secret: Some(v), ..p }, q.1))
            },
        }
    } else if chars_eq_6(key, 'd', 'i', 'g', 'i', 't', 's') {
        if p.digits.is_some() {
            return None;
        }
        match parse_number(s, i) {
            None => None,
            Some(q) => Some((PartialRecord { digits: Some(q.0), ..p }, q.1)),
        }
    } else if chars_eq_6(key, 'p', 'e', 'r', 'i', 'o', 'd') {
        if p.period.is_some() {
            return None;
        }
        match parse_number(s, i) {
            None => None,
            Some(q) => Some((PartialRecord { period: Some(q.0), ..p }, q.1)),
        }
    } else if chars_eq_9(key, 'a', 'l', 'g', 'o', 'r', 'i', 't', 'h', 'm') {
        if p.algorithm.is_some() {
            return None;
        }
        match parse_string(s, i) {
            None => None,
            Some(q) => {
                if chars_eq_4(&q.0, 'S', 'H', 'A', '1') {
                    Some((PartialRecord { algorithm: Some(Algorithm::Sha1), ..p }, q.1))
                } else if chars_eq_6(&q.0, 'S', 'H', 'A', '2', '5', '6') {
                    Some((PartialRecord { algorithm: Some(Algorithm::Sha256), ..p }, q.1))
                } else if chars_eq_6(&q.0, 'S', 'H', 'A', '5', '1', '2') {
                    Some((PartialRecord { algorithm: Some(Algorithm::Sha512), ..p }, q.1))
                } else {
                    None
                }
            },
        }
    } else if chars_eq_6(key, 'i', 's', 's', 'u', 'e', 'r') {
        if p.issuer.is_some() {
            return None;
        }
        let rem = s.len() - i;
        let is_null = rem >= 4 && s[i] == 'n' && s[i + 1] == 'u' && s[i + 2] == 'l' && s[i + 3]
            == 'l';
        proof {
            if rem >= 4 {
                assert(t[0] == s@[i as int] && t[1] == s@[i as int + 1] && t[2] == s@[i as int + 2]
                    && t[3] == s@[i as int + 3]);
            }
            assert(is_null == (t.len() >= 4 && t[0] == 'n' && t[1] == 'u' && t[2] == 'l' && t[3]
                == 'l'));
        }
        if is_null {
            proof {
                assert(t.skip(4) =~= s@.skip(i as int + 4));
            }
            Some((PartialRecord { issuer: Some(None), ..p }, i + 4))
        } else {
            match parse_string(s, i) {
                None => None,
                Some(q) => {
                    let v = chars_to_string(&q.0);
                    Some((PartialRecord { issuer: Some(Some(v)), ..p }, q.1))
                },
            }
        }
    } else {
        None
    }
}

/// Parses the members of a record object from position `i`, exactly as
/// `spec_parse_members` of the suffix at `i`.
#[verifier::rlimit(60)]
fn parse_members(s: &Vec<char>, i: usize, p: PartialRecord) -> (r: Option<(PartialRecord, usize)>)
    requires
        i <= s@.len(),
    ensures
        (match spec_parse_members(s@.skip(i as int), p.pview()) {
            Some(q) => r matches Some(t) && t.0.pview() == q.0 && i < t.1 <= s@.len() && s@.skip(
                t.1 as int,
            ) == q.1,
            None => r is None,
        }),
    decreases s@.len() - i,
{
    let ghost t = s@.skip(i as int);
    match parse_string(s, i) {
        None => None,
        Some(k) => {
            let key = k.0;
            let j1 = k.1;
            let j2 = skip_ws(s, j1);
            if j2 == s.len() {
                return None;
            }
            proof {
                assert(s@.skip(j2 as int)[0] == s@[j2 as int]);
            }
            if s[j2] != ':' {
                return None;
            }
            proof {
                assert(s@.skip(j2 as int).skip(1) =~= s@.skip(j2 as int + 1));
            }
            let j3 = skip_ws(s, j2 + 1);
            match parse_member_value(&key, p, s, j3) {
                None => None,
                Some(q) => {
                    let p2 = q.0;
                    let j4 = q.1;
                    let j5 = skip_ws(s, j4);
                    if j5 == s.len() {
                        return None;
                    }
                    proof {
                        assert(s@.skip(j5 as int)[0] == s@[j5 as int]);
                    }
                    let c = s[j5];
                    if c == ',' {
                        proof {
                            assert(s@.skip(j5 as int).skip(1) =~= s@.skip(j5 as int + 1));
                        }
                        let j6 = skip_ws(s, j5 + 1);
                        assert(j6 > i);
                        parse_members(s, j6, p2)
                    } else if c == '}' {
                        proof {
                            assert(s@.skip(j5 as int).skip(1) =~= s@.skip(j5 as int + 1));
                        }
                        Some((p2, j5 + 1))
                    } else {
                        None
                    }
                },
            }
        },
    }
}

/// Closes a record, exactly as `spec_finish_record`.
fn finish_record(p: PartialRecord) -> (r: Option<Account>)
    ensures
        (match spec_finish_record(p.pview()) {
            Some(av) => r matches Some(a) && a@ == av && av.wf(),
            None => r is None,
        }),
{
    let name = match p.name {
        Some(n) => n,
        None => {
            return None;
        },
    };
    let secret = match p.secret {
        Some(v) => v,
        None => {
            return None;
        },
    };
    let digits: u64 = match p.digits {
        Some(d) => d,
        None => 6,
    };
    let period: u64 = match p.period {
        Some(d) => d,
        None => 30,
    };
    let algorithm = match p.algorithm {
        Some(a) => a,
        None => Algorithm::Sha1,
    };
    let issuer: Option<String> = match p.issuer {
        Some(v) => v,
        None => None,
    };
    if (digits == 6 || digits == 7 || digits == 8) && period > 0 {
        Some(Account::new(name, secret, digits as usize, period, algorithm, issuer))
    } else {
        None
    }
}

/// Parses one record object from position `i`, exactly as
/// `spec_parse_record` of the suffix at `i`.
fn parse_record(s: &Vec<char>, i: usize) -> (r: Option<(Account, usize)>)
    requires
        i <= s@.len(),
    ensures
        (match spec_parse_record(s@.skip(i as int)) {
            Some(q) => r matches Some(t) && t.0@ == q.0 && q.0.wf() && i < t.1 <= s@.len()
                && s@.skip(t.1 as int) == q.1,
            None => r is None,
        }),
{
    let ghost t = s@.skip(i as int);
    if i == s.len() {
        return None;
    }
    proof {
        assert(t[0] == s@[i as int]);
    }
    if s[i] != '{' {
        return None;
    }
    proof {
        assert(t.skip(1) =~= s@.skip(i as int + 1));
    }
    let j1 = skip_ws(s, i + 1);
    match parse_members(s, j1, PartialRecord::empty()) {
        None => None,
        Some(q) => match finish_record(q.0) {
            None => None,
            Some(a) => Some((a, q.1)),
        },
    }
}

/// Parses the records of a nonempty array from position `i`, exactly as
/// `spec_parse_records` of the suffix at `i`.
#[verifier::rlimit(60)]
fn parse_records(s: &Vec<char>, i: usize, acc: Vec<Account>) -> (r: Option<(Vec<Account>, usize)>)
    requires
        i <= s@.len(),
        forall|k: int| 0 <= k < acc@.len() ==> (#[trigger] acc@[k])@.wf(),
    ensures
        (match spec_parse_records(s@.skip(i as int), acc.deep_view()) {
            Some(q) => r matches Some(t) && t.0.deep_view() == q.0 && i < t.1 <= s@.len()
                && s@.skip(t.1 as int) == q.1 && (forall|k: int|
                0 <= k < t.0@.len() ==> (#[trigger] t.0@[k])@.wf()),
            None => r is None,
        }),
    decreases s@.len() - i,
{
    let ghost t = s@.skip(i as int);
    match parse_record(s, i) {
        None => None,
        Some(q) => {
            let a = q.0;
            let j1 = q.1;
            let j2 = skip_ws(s, j1);
            if j2 == s.len() {
                return None;
            }
            proof {
                assert(s@.skip(j2 as int)[0] == s@[j2 as int]);
            }
            let c = s[j2];
            let mut acc2 = acc;
            let ghost av = a@;
            let ghost acc_dv = acc2.deep_view();
            acc2.push(a);
            proof {
                assert(acc2.deep_view() =~= acc_dv.push(av));
            }
            if c == ',' {
                proof {
                    assert(s@.skip(j2 as int).skip(1) =~= s@.skip(j2 as int + 1));
                }
                let j3 = skip_ws(s, j2 + 1);
                assert(j3 > i);
                parse_records(s, j3, acc2)
            } else if c == ']' {
                proof {
                    assert(s@.skip(j2 as int).skip(1) =~= s@.skip(j2 as int + 1));
                }
                Some((acc2, j2 + 1))
            } else {
                None
            }
        },
    }
}

/// Parses a whole storage text, exactly as `spec_parse_accounts`.
pub(crate) fn parse_accounts_chars(s: &Vec<char>) -> (r: Option<Vec<Account>>)
    ensures
        (match spec_parse_accounts(s@) {
            Some(vs) => r matches Some(v) && v.deep_view() == vs && vs.len() == v@.len() && (
            forall|k: int| 0 <= k < v@.len() ==> (#[trigger] v@[k])@.wf()),
            None => r is None,
        }),
{
    proof {
        assert(s@.skip(0) =~= s@);
    }
    let j0 = skip_ws(s, 0);
    if j0 == s.len() {
        return None;
    }
    proof {
        assert(s@.skip(j0 as int)[0] == s@[j0 as int]);
    }
    if s[j0] != '[' {
        return None;
    }
    proof {
        assert(s@.skip(j0 as int).skip(1) =~= s@.skip(j0 as int + 1));
    }
    let j1 = skip_ws(s, j0 + 1);
    if j1 < s.len() && s[j1] == ']' {
        proof {
            assert(s@.skip(j1 as int)[0] == s@[j1 as int]);
            assert(s@.skip(j1 as int).skip(1) =~= s@.skip(j1 as int + 1));
        }
        let j2 = skip_ws(s, j1 + 1);
        if j2 == s.len() {
            let empty_accounts: Vec<Account> = Vec::new();
            proof {
                assert(empty_accounts.deep_view() =~= Seq::<AccountView>::empty());
            }
            Some(empty_accounts)
        } else {
            None
        }
    } else {
        proof {
            if j1 < s@.len() {
                assert(s@.skip(j1 as int)[0] == s@[j1 as int]);
            }
        }
        let start_acc: Vec<Account> = Vec::new();
        proof {
            assert(start_acc.deep_view() =~= Seq::<AccountView>::empty());
        }
        match parse_records(s, j1, start_acc) {
            None => None,
            Some(q) => {
                let j2 = skip_ws(s, q.1);
                if j2 == s.len() {
                    Some(q.0)
                } else {
                    None
                }
            },
        }
    }
}

// ---------------------------------------------------------------------
// Records: exec emitting
// ---------------------------------------------------------------------
/// Appends `": "` after a key.
fn push_colon_space(out: &mut Vec<char>)
    ensures
        final(out)@ == old(out)@ + seq![':', ' '],
{
    out.push(':');
    out.push(' ');
    proof {
        assert(final(out)@ =~= old(out)@ + seq![':', ' ']);
    }
}

/// Appends `",\n"` after a field.
fn push_comma_newline(out: &mut Vec<char>)
    ensures
        final(out)@ == old(out)@ + seq![',', '\n'],
{
    out.push(',');
    out.push('\n');
    proof {
        assert(final(out)@ =~= old(out)@ + seq![',', '\n']);
    }
}

/// Appends the four-space field indent.
fn push_field_indent(out: &mut Vec<char>)
    ensures
        final(out)@ == old(out)@ + field_indent(),
{
    out.push(' ');
    out.push(' ');
    out.push(' ');
    out.push(' ');
    proof {
        assert(final(out)@ =~= old(out)@ + field_indent());
    }
}

/// Appends the algorithm value, quoted.
fn emit_algorithm_into(out: &mut Vec<char>, a: Algorithm)
    ensures
        final(out)@ == old(out)@ + spec_emit_algorithm(a),
{
    out.push('"');
    match a {
        Algorithm::Sha1 => {
            out.push('S');
            out.push('H');
            out.push('A');
            out.push('1');
        },
        Algorithm::Sha256 => {
            out.push('S');
            out.push('H');
            out.push('A');
            out.push('2');
            out.push('5');
            out.push('6');
        },
        Algorithm::Sha512 => {
            out.push('S');
            out.push('H');
            out.push('A');
            out.push('5');
            out.push('1');
            out.push('2');
        },
    }
    out.push('"');
    proof {
        assert(final(out)@ =~= old(out)@ + spec_emit_algorithm(a));
    }
}

/// Appends the quoted `name` key.
fn push_key_name(out: &mut Vec<char>)
    ensures
        final(out)@ == old(out)@ + spec_emit_string(key_name_chars()),
{
    out.push('"');
    out.push('n');
    out.push('a');
    out.push('m');
    out.push('e');
    out.push('"');
    proof {
        let k = key_name_chars();
        assert(forall|i: int| 0 <= i < k.len() ==> is_plain_char(#[trigger] k[i]));
        lemma_escape_plain(k);
        assert(final(out)@ =~= old(out)@ + spec_emit_string(k));
    }
}

/// Appends the quoted `secret` key.
fn push_key_secret(out: &mut Vec<char>)
    ensures
        final(out)@ == old(out)@ + spec_emit_string(key_secret_chars()),
{
    out.push('"');
    out.push('s');
    out.push('e');
    out.push('c');
    out.push('r');
    out.push('e');
    out.push('t');
    out.push('"');
    proof {
        let k = key_secret_chars();
        assert(forall|i: int| 0 <= i < k.len() ==> is_plain_char(#[trigger] k[i]));
        lemma_escape_plain(k);
        assert(final(out)@ =~= old(out)@ + spec_emit_string(k));
    }
}

/// Appends the quoted `digits` key.
fn push_key_digits(out: &mut Vec<char>)
    ensures
        final(out)@ == old(out)@ + spec_emit_string(key_digits_chars()),
{
    out.push('"');
    out.push('d');
    out.push('i');
    out.push('g');
    out.push('i');
    out.push('t');
    out.push('s');
    out.push('"');
    proof {
        let k = key_digits_chars();
        assert(forall|i: int| 0 <= i < k.len() ==> is_plain_char(#[trigger] k[i]));
        lemma_escape_plain(k);
        assert(final(out)@ =~= old(out)@ + spec_emit_string(k));
    }
}

/// Appends the quoted `period` key.
fn push_key_period(out: &mut Vec<char>)
    ensures
        final(out)@ == old(out)@ + spec_emit_string(key_period_chars()),
{
    out.push('"');
    out.push('p');
    out.push('e');
    out.push('r');
    out.push('i');
    out.push('o');
    out.push('d');
    out.push('"');
    proof {
        let k = key_period_chars();
        assert(forall|i: int| 0 <= i < k.len() ==> is_plain_char(#[trigger] k[i]));
        lemma_escape_plain(k);
        assert(final(out)@ =~= old(out)@ + spec_emit_string(k));
    }
}

/// Appends the quoted `algorithm` key.
fn push_key_algorithm(out: &mut Vec<char>)
    ensures
        final(out)@ == old(out)@ + spec_emit_string(key_algorithm_chars()),
{
    out.push('"');
    out.push('a');
    out.push('l');
    out.push('g');
    out.push('o');
    out.push('r');
    out.push('i');
    out.push('t');
    out.push('h');
    out.push('m');
    out.push('"');
    proof {
        let k = key_algorithm_chars();
        assert(forall|i: int| 0 <= i < k.len() ==> is_plain_char(#[trigger] k[i]));
        lemma_escape_plain(k);
        assert(final(out)@ =~= old(out)@ + spec_emit_string(k));
    }
}

/// Appends the quoted `issuer` key.
fn push_key_issuer(out: &mut Vec<char>)
    ensures
        final(out)@ == old(out)@ + spec_emit_string(key_issuer_chars()),
{
    out.push('"');
    out.push('i');
    out.push('s');
    out.push('s');
    out.push('u');
    out.push('e');
    out.push('r');
    out.push('"');
    proof {
        let k = key_issuer_chars();
        assert(forall|i: int| 0 <= i < k.len() ==> is_plain_char(#[trigger] k[i]));
        lemma_escape_plain(k);
        assert(final(out)@ =~= old(out)@ + spec_emit_string(k));
    }
}

/// Appends the issuer value: `null` or a quoted string.
fn emit_issuer_into(out: &mut Vec<char>, iss: Option<&String>)
    ensures
        final(out)@ == old(out)@ + spec_emit_issuer(
            match iss {
                Some(s) => Some(s@),
                None => None,
            },
        ),
{
    match iss {
        None => {
            out.push('n');
            out.push('u');
            out.push('l');
            out.push('l');
            proof {
                assert(final(out)@ =~= old(out)@ + seq!['n', 'u', 'l', 'l']);
            }
        },
        Some(s) => {
            let cs = crate::strutil::str_to_chars(s.as_str());
            emit_string_into(out, &cs);
        },
    }
}

/// Appends the six field lines of one record.
#[verifier::rlimit(100)]
fn emit_account_fields(out: &mut Vec<char>, a: &Account)
    ensures
        final(out)@ == old(out)@ + spec_account_fields(a@),
{
    push_field_indent(out);
    push_key_name(out);
    push_colon_space(out);
    let nm = crate::strutil::str_to_chars(a.name());
    emit_string_into(out, &nm);
    push_comma_newline(out);
    proof {
        assert(out@ =~= old(out)@ + (spec_field_line(key_name_chars(), spec_emit_string(a@.name))
            + seq![',', '\n']));
    }
    let ghost g1 = out@;
    push_field_indent(out);
    push_key_secret(out);
    push_colon_space(out);
    let sec = crate::strutil::str_to_chars(a.secret());
    emit_string_into(out, &sec);
    push_comma_newline(out);
    proof {
        assert(out@ =~= g1 + (spec_field_line(key_secret_chars(), spec_emit_string(a@.secret))
            + seq![',', '\n']));
    }
    let ghost g2 = out@;
    push_field_indent(out);
    push_key_digits(out);
    push_colon_space(out);
    emit_u64_into(out, a.digits() as u64);
    push_comma_newline(out);
    proof {
        assert(out@ =~= g2 + (spec_field_line(key_digits_chars(), spec_emit_u64(a@.digits as u64))
            + seq![',', '\n']));
    }
    let ghost g3 = out@;
    push_field_indent(out);
    push_key_period(out);
    push_colon_space(out);
    emit_u64_into(out, a.period());
    push_comma_newline(out);
    proof {
        assert(out@ =~= g3 + (spec_field_line(key_period_chars(), spec_emit_u64(a@.period))
            + seq![',', '\n']));
    }
    let ghost g4 = out@;
    push_field_indent(out);
    push_key_algorithm(out);
    push_colon_space(out);
    emit_algorithm_into(out, a.algorithm());
    push_comma_newline(out);
    proof {
        assert(out@ =~= g4 + (spec_field_line(
            key_algorithm_chars(),
            spec_emit_algorithm(a@.algorithm),
        ) + seq![',', '\n']));
    }
    let ghost g5 = out@;
    push_field_indent(out);
    push_key_issuer(out);
    push_colon_space(out);
    emit_issuer_into(out, a.issuer());
    proof {
        assert(out@ =~= g5 + spec_field_line(key_issuer_chars(), spec_emit_issuer(a@.issuer)));
        assert(final(out)@ =~= old(out)@ + spec_account_fields(a@));
    }
}

/// Appends the text of one record.
pub(crate) fn emit_account_into(out: &mut Vec<char>, a: &Account)
    ensures
        final(out)@ == old(out)@ + spec_emit_account(a@),
{
    out.push(' ');
    out.push(' ');
    out.push('{');
    out.push('\n');
    proof {
        assert(out@ =~= old(out)@ + seq![' ', ' ', '{', '\n']);
    }
    let ghost g0 = out@;
    emit_account_fields(out, a);
    out.push('\n');
    out.push(' ');
    out.push(' ');
    out.push('}');
    proof {
        assert(out@ =~= g0 + spec_account_fields(a@) + seq!['\n', ' ', ' ', '}']);
        assert(final(out)@ =~= old(out)@ + spec_emit_account(a@));
    }
}

/// Appends the records from index `i` on, separated by commas.
fn emit_records_into(out: &mut Vec<char>, accts: &Vec<Account>, i: usize)
    requires
        i < accts@.len(),
    ensures
        final(out)@ == old(out)@ + spec_emit_records(accts.deep_view().skip(i as int)),
    decreases accts@.len() - i,
{
    let ghost dv = accts.deep_view();
    proof {
        assert(dv.len() == accts@.len());
        assert(dv.skip(i as int)[0] == dv[i as int]);
        assert(dv[i as int] == accts@[i as int]@);
    }
    emit_account_into(out, &accts[i]);
    if i == accts.len() - 1 {
        proof {
            assert(dv.skip(i as int).len() == 1);
            assert(final(out)@ =~= old(out)@ + spec_emit_records(dv.skip(i as int)));
        }
    } else {
        push_comma_newline(out);
        emit_records_into(out, accts, i + 1);
        proof {
            assert(dv.skip(i as int).skip(1) =~= dv.skip(i as int + 1));
            assert(final(out)@ =~= old(out)@ + spec_emit_records(dv.skip(i as int)));
        }
    }
}

/// Renders the storage text for a sequence of accounts: the exact
/// character sequence of `spec_emit_accounts`.
pub fn accounts_to_json(accts: &Vec<Account>) -> (r: String)
    ensures
        r@ == spec_emit_accounts(accts.deep_view()),
{
    let mut out: Vec<char> = Vec::new();
    if accts.len() == 0 {
        out.push('[');
        out.push(']');
        proof {
            assert(accts.deep_view().len() == accts@.len());
            assert(out@ =~= spec_emit_accounts(accts.deep_view()));
        }
    } else {
        out.push('[');
        out.push('\n');
        emit_records_into(&mut out, accts, 0);
        out.push('\n');
        out.push(']');
        proof {
            assert(accts.deep_view().skip(0) =~= accts.deep_view());
            assert(accts.deep_view().len() == accts@.len());
            assert(out@ =~= spec_emit_accounts(accts.deep_view()));
        }
    }
    chars_to_string(&out)
}

/// Reads a storage text: the accounts of `spec_parse_accounts`, or
/// nothing when the text is not in the expected format.
pub fn accounts_from_json(s: &str) -> (r: Option<Vec<Account>>)
    ensures
        (match spec_parse_accounts(s@) {
            Some(vs) => r matches Some(v) && v.deep_view() == vs && (forall|k: int|
                0 <= k < v@.len() ==> (#[trigger] v@[k])@.wf()),
            None => r is None,
        }),
{
    let cs = crate::strutil::str_to_chars(s);
    parse_accounts_chars(&cs)
}

// ---------------------------------------------------------------------
// Round trip: strings
// ---------------------------------------------------------------------
/// The hex digit characters carry their values.
pub proof fn lemma_hex_digit_value(d: int)
    requires
        0 <= d < 16,
    ensures
        hex_value(hex_digit_char(d)) == d,
{
    if d == 0 {
        assert(HEX_CHARS@[0] == '0');
    } else if d == 1 {
        assert(HEX_CHARS@[1] == '1');
    } else if d == 2 {
        assert(HEX_CHARS@[2] == '2');
    } else if d == 3 {
        assert(HEX_CHARS@[3] == '3');
    } else if d == 4 {
        assert(HEX_CHARS@[4] == '4');
    } else if d == 5 {
        assert(HEX_CHARS@[5] == '5');
    } else if d == 6 {
        assert(HEX_CHARS@[6] == '6');
    } else if d == 7 {
        assert(HEX_CHARS@[7] == '7');
    } else if d == 8 {
        assert(HEX_CHARS@[8] == '8');
    } else if d == 9 {
        assert(HEX_CHARS@[9] == '9');
    } else if d == 10 {
        assert(HEX_CHARS@[10] == 'a');
    } else if d == 11 {
        assert(HEX_CHARS@[11] == 'b');
    } else if d == 12 {
        assert(HEX_CHARS@[12] == 'c');
    } else if d == 13 {
        assert(HEX_CHARS@[13] == 'd');
    } else if d == 14 {
        assert(HEX_CHARS@[14] == 'e');
    } else {
        assert(HEX_CHARS@[15] == 'f');
    }
}

/// Parsing an escaped string body followed by its closing quote yields
/// the original characters.
#[verifier::rlimit(100)]
pub proof fn lemma_parse_body_emit(t: Seq<char>, rest: Seq<char>)
    ensures
        spec_parse_string_body(spec_escape(t) + seq!['"'] + rest) == Some((t, rest)),
    decreases t.len(),
{
    let s = spec_escape(t) + seq!['"'] + rest;
    if t.len() == 0 {
        assert(spec_escape(t) == Seq::<char>::empty());
        assert(s =~= seq!['"'] + rest);
        assert(s[0] == '"');
        assert(s.skip(1) =~= rest);
    } else {
        let c0 = t[0];
        let tail = t.skip(1);
        lemma_parse_body_emit(tail, rest);
        let inner = spec_escape(tail) + seq!['"'] + rest;
        let es = spec_escape_char(c0);
        assert(spec_escape(t) == es + spec_escape(tail));
        assert(s =~= es + inner);
        assert(seq![c0] + tail =~= t);
        if c0 == '"' || c0 == '\\' || c0 == '\u{8}' || c0 == '\u{c}' || c0 == '\n' || c0 == '\r'
            || c0 == '\t' {
            assert(es.len() == 2 && es[0] == '\\');
            assert(s[0] == '\\' && s[1] == es[1]);
            assert(s.len() >= 2);
            assert(s[1] != 'u');
            assert(spec_unescape_simple(es[1]) == Some(c0));
            assert(s.skip(2) =~= inner);
        } else if (c0 as u32) < 0x20 {
            let v = c0 as u32 as int;
            let h1 = hex_digit_char(v / 16);
            let h2 = hex_digit_char(v % 16);
            assert(es =~= seq!['\\', 'u', '0', '0', h1, h2]);
            assert(s[0] == '\\' && s[1] == 'u' && s[2] == '0' && s[3] == '0' && s[4] == h1 && s[5]
                == h2);
            lemma_hex_digit_value(v / 16);
            lemma_hex_digit_value(v % 16);
            assert(hex_value('0') == 0);
            assert(s.len() >= 6);
            assert(spec_hex4(s, 2) == hex_value(s[2]) * 0x1000 + hex_value(s[3]) * 0x100
                + hex_value(s[4]) * 0x10 + hex_value(s[5]));
            assert(spec_hex4(s, 2) == (v / 16) * 16 + v % 16);
            assert(spec_hex4(s, 2) == v);
            assert(0 <= v < 0x20);
            assert(s.skip(6) =~= inner);
            vstd::utf8::char_u32_cast(c0, c0 as u32);
            assert(((v as u32) as char) == c0);
        } else {
            assert(is_plain_char(c0));
            assert(es =~= seq![c0]);
            assert(s[0] == c0);
            assert(s[0] != '"' && s[0] != '\\' && (s[0] as u32) >= 0x20);
            assert(s.skip(1) =~= inner);
        }
    }
}

/// Parsing an emitted string yields the original characters.
pub proof fn lemma_parse_string_emit(t: Seq<char>, rest: Seq<char>)
    ensures
        spec_parse_string(spec_emit_string(t) + rest) == Some((t, rest)),
{
    let s = spec_emit_string(t) + rest;
    assert(s[0] == '"');
    assert(s.skip(1) =~= spec_escape(t) + seq!['"'] + rest);
    lemma_parse_body_emit(t, rest);
}

// ---------------------------------------------------------------------
// Round trip: records
// ---------------------------------------------------------------------
/// The member text from the `issuer` key through the record's closing
/// brace, then `rest`.
pub open spec fn stage_issuer_text(a: AccountView, rest: Seq<char>) -> Seq<char> {
    spec_emit_string(key_issuer_chars()) + seq![':', ' '] + spec_emit_issuer(a.issuer) + seq![
        '\n',
        ' ',
        ' ',
        '}',
    ] + rest
}

/// The member text from the `algorithm` key on.
pub open spec fn stage_algorithm_text(a: AccountView, rest: Seq<char>) -> Seq<char> {
    spec_emit_string(key_algorithm_chars()) + seq![':', ' '] + spec_emit_algorithm(a.algorithm)
        + seq![',', '\n'] + field_indent() + stage_issuer_text(a, rest)
}

/// The member text from the `period` key on.
pub open spec fn stage_period_text(a: AccountView, rest: Seq<char>) -> Seq<char> {
    spec_emit_string(key_period_chars()) + seq![':', ' '] + spec_emit_u64(a.period) + seq![
        ',',
        '\n',
    ] + field_indent() + stage_algorithm_text(a, rest)
}

/// The member text from the `digits` key on.
pub open spec fn stage_digits_text(a: AccountView, rest: Seq<char>) -> Seq<char> {
    spec_emit_string(key_digits_chars()) + seq![':', ' '] + spec_emit_u64(a.digits as u64) + seq![
        ',',
        '\n',
    ] + field_indent() + stage_period_text(a, rest)
}

/// The member text from the `secret` key on.
pub open spec fn stage_secret_text(a: AccountView, rest: Seq<char>) -> Seq<char> {
    spec_emit_string(key_secret_chars()) + seq![':', ' '] + spec_emit_string(a.secret) + seq![
        ',',
        '\n',
    ] + field_indent() + stage_digits_text(a, rest)
}

/// The member text from the `name` key on.
pub open spec fn stage_name_text(a: AccountView, rest: Seq<char>) -> Seq<char> {
    spec_emit_string(key_name_chars()) + seq![':', ' '] + spec_emit_string(a.name) + seq![',', '\n']
        + field_indent() + stage_secret_text(a, rest)
}

/// The partial records at each point of a record's member list.
pub open spec fn partial_through_name(a: AccountView) -> PartialView {
    PartialView { name: Some(a.name), ..spec_empty_partial() }
}

pub open spec fn partial_through_secret(a: AccountView) -> PartialView {
    PartialView { secret: Some(a.secret), ..partial_through_name(a) }
}

pub open spec fn partial_through_digits(a: AccountView) -> PartialView {
    PartialView { digits: Some(a.digits as u64), ..partial_through_secret(a) }
}

pub open spec fn partial_through_period(a: AccountView) -> PartialView {
    PartialView { period: Some(a.period), ..partial_through_digits(a) }
}

pub open spec fn partial_through_algorithm(a: AccountView) -> PartialView {
    PartialView { algorithm: Some(a.algorithm), ..partial_through_period(a) }
}

pub open spec fn partial_full(a: AccountView) -> PartialView {
    PartialView { issuer: Some(a.issuer), ..partial_through_algorithm(a) }
}

/// Reading the `issuer` member closes the record.
#[verifier::rlimit(100)]
pub proof fn lemma_members_issuer(a: AccountView, rest: Seq<char>)
    ensures
        spec_parse_members(stage_issuer_text(a, rest), partial_through_algorithm(a)) == Some(
            (partial_full(a), rest),
        ),
{
    let s = stage_issuer_text(a, rest);
    let key = key_issuer_chars();
    let after_colon = spec_emit_issuer(a.issuer) + seq!['\n', ' ', ' ', '}'] + rest;
    let r1 = seq![':', ' '] + after_colon;
    lemma_parse_string_emit(key, r1);
    assert(s =~= spec_emit_string(key) + r1);
    assert(!is_json_ws(r1[0]));
    assert(spec_skip_ws(r1) == r1);
    assert(r1.skip(1) =~= seq![' '] + after_colon);
    let close = seq!['\n', ' ', ' ', '}'] + rest;
    match a.issuer {
        None => {
            assert(after_colon =~= seq!['n', 'u', 'l', 'l'] + close);
            assert(after_colon[0] == 'n');
            lemma_skip_ws_run(seq![' '], after_colon);
            assert(after_colon[1] == 'u' && after_colon[2] == 'l' && after_colon[3] == 'l');
            assert(after_colon.skip(4) =~= close);
        },
        Some(t) => {
            assert(after_colon =~= spec_emit_string(t) + close);
            assert(after_colon[0] == '"');
            lemma_skip_ws_run(seq![' '], after_colon);
            lemma_parse_string_emit(t, close);
        },
    }
    // in both cases the member value is read and `close` remains
    assert(spec_parse_member_value(key, partial_through_algorithm(a), after_colon) == Some(
        (partial_full(a), close),
    ));
    assert(close[0] == '\n');
    lemma_skip_ws_run(seq!['\n', ' ', ' '], seq!['}'] + rest);
    assert(close =~= seq!['\n', ' ', ' '] + (seq!['}'] + rest));
    assert((seq!['}'] + rest)[0] == '}');
    assert((seq!['}'] + rest).skip(1) =~= rest);
}

/// Reading the `algorithm` member leads to the `issuer` member.
#[verifier::rlimit(100)]
pub proof fn lemma_members_algorithm(a: AccountView, rest: Seq<char>)
    ensures
        spec_parse_members(stage_algorithm_text(a, rest), partial_through_period(a)) == Some(
            (partial_full(a), rest),
        ),
{
    let s = stage_algorithm_text(a, rest);
    let key = key_algorithm_chars();
    let cont = seq![',', '\n'] + field_indent() + stage_issuer_text(a, rest);
    let after_colon = spec_emit_algorithm(a.algorithm) + cont;
    let r1 = seq![':', ' '] + after_colon;
    lemma_parse_string_emit(key, r1);
    assert(s =~= spec_emit_string(key) + r1);
    assert(!is_json_ws(r1[0]));
    assert(spec_skip_ws(r1) == r1);
    assert(r1.skip(1) =~= seq![' '] + after_colon);
    let ac = algo_chars(a.algorithm);
    assert(forall|i: int| 0 <= i < ac.len() ==> is_plain_char(#[trigger] ac[i])) by {
        match a.algorithm {
            Algorithm::Sha1 => {},
            Algorithm::Sha256 => {},
            Algorithm::Sha512 => {},
        }
    }
    lemma_escape_plain(ac);
    assert(spec_emit_algorithm(a.algorithm) == spec_emit_string(ac));
    assert(after_colon[0] == '"');
    lemma_skip_ws_run(seq![' '], after_colon);
    assert(after_colon =~= spec_emit_string(ac) + cont);
    lemma_parse_string_emit(ac, cont);
    assert(key != key_name_chars()) by {
        assert(key.len() != key_name_chars().len());
    }
    assert(key != key_secret_chars()) by {
        assert(key.len() != key_secret_chars().len());
    }
    assert(key != key_digits_chars()) by {
        assert(key.len() != key_digits_chars().len());
    }
    assert(key != key_period_chars()) by {
        assert(key.len() != key_period_chars().len());
    }
    match a.algorithm {
        Algorithm::Sha1 => {},
        Algorithm::Sha256 => {
            assert(ac != algo_chars(Algorithm::Sha1)) by {
                assert(ac.len() != algo_chars(Algorithm::Sha1).len());
            }
        },
        Algorithm::Sha512 => {
            assert(ac != algo_chars(Algorithm::Sha1)) by {
                assert(ac.len() != algo_chars(Algorithm::Sha1).len());
            }
            assert(ac != algo_chars(Algorithm::Sha256)) by {
                assert(ac[3] != algo_chars(Algorithm::Sha256)[3]);
            }
        },
    }
    assert(spec_parse_member_value(key, partial_through_period(a), after_colon) == Some(
        (partial_through_algorithm(a), cont),
    ));
    assert(!is_json_ws(cont[0]));
    assert(spec_skip_ws(cont) == cont);
    assert(cont[0] == ',');
    let run = seq!['\n', ' ', ' ', ' ', ' '];
    let nxt = stage_issuer_text(a, rest);
    assert(cont.skip(1) =~= run + nxt);
    assert(nxt[0] == '"');
    lemma_skip_ws_run(run, nxt);
    lemma_members_issuer(a, rest);
}

/// Reading the `period` member leads to the `algorithm` member.
#[verifier::rlimit(100)]
pub proof fn lemma_members_period(a: AccountView, rest: Seq<char>)
    ensures
        spec_parse_members(stage_period_text(a, rest), partial_through_digits(a)) == Some(
            (partial_full(a), rest),
        ),
{
    let s = stage_period_text(a, rest);
    let key = key_period_chars();
    let cont = seq![',', '\n'] + field_indent() + stage_algorithm_text(a, rest);
    let after_colon = spec_emit_u64(a.period) + cont;
    let r1 = seq![':', ' '] + after_colon;
    lemma_parse_string_emit(key, r1);
    assert(s =~= spec_emit_string(key) + r1);
    assert(!is_json_ws(r1[0]));
    assert(spec_skip_ws(r1) == r1);
    assert(r1.skip(1) =~= seq![' '] + after_colon);
    lemma_dec_nat_shape(a.period as nat);
    assert(after_colon[0] == spec_emit_u64(a.period)[0]);
    assert(is_digit_char(after_colon[0]));
    assert(!is_json_ws(after_colon[0]));
    lemma_skip_ws_run(seq![' '], after_colon);
    assert(!is_digit_char(cont[0]));
    lemma_parse_number_emit(a.period, cont);
    assert(key != key_name_chars()) by {
        assert(key.len() != key_name_chars().len());
    }
    assert(key != key_secret_chars()) by {
        assert(key[0] != key_secret_chars()[0]);
    }
    assert(key != key_digits_chars()) by {
        assert(key[0] != key_digits_chars()[0]);
    }
    assert(spec_parse_member_value(key, partial_through_digits(a), after_colon) == Some(
        (partial_through_period(a), cont),
    ));
    assert(!is_json_ws(cont[0]));
    assert(spec_skip_ws(cont) == cont);
    assert(cont[0] == ',');
    let run = seq!['\n', ' ', ' ', ' ', ' '];
    let nxt = stage_algorithm_text(a, rest);
    assert(cont.skip(1) =~= run + nxt);
    assert(nxt[0] == '"');
    lemma_skip_ws_run(run, nxt);
    lemma_members_algorithm(a, rest);
}

/// Reading the `digits` member leads to the `period` member.
#[verifier::rlimit(100)]
pub proof fn lemma_members_digits(a: AccountView, rest: Seq<char>)
    ensures
        spec_parse_members(stage_digits_text(a, rest), partial_through_secret(a)) == Some(
            (partial_full(a), rest),
        ),
{
    let s = stage_digits_text(a, rest);
    let key = key_digits_chars();
    let cont = seq![',', '\n'] + field_indent() + stage_period_text(a, rest);
    let after_colon = spec_emit_u64(a.digits as u64) + cont;
    let r1 = seq![':', ' '] + after_colon;
    lemma_parse_string_emit(key, r1);
    assert(s =~= spec_emit_string(key) + r1);
    assert(!is_json_ws(r1[0]));
    assert(spec_skip_ws(r1) == r1);
    assert(r1.skip(1) =~= seq![' '] + after_colon);
    lemma_dec_nat_shape(a.digits as nat);
    assert(after_colon[0] == spec_emit_u64(a.digits as u64)[0]);
    assert(is_digit_char(after_colon[0]));
    assert(!is_json_ws(after_colon[0]));
    lemma_skip_ws_run(seq![' '], after_colon);
    assert(!is_digit_char(cont[0]));
    lemma_parse_number_emit(a.digits as u64, cont);
    assert(key != key_name_chars()) by {
        assert(key.len() != key_name_chars().len());
    }
    assert(key != key_secret_chars()) by {
        assert(key[0] != key_secret_chars()[0]);
    }
    assert(spec_parse_member_value(key, partial_through_secret(a), after_colon) == Some(
        (partial_through_digits(a), cont),
    ));
    assert(!is_json_ws(cont[0]));
    assert(spec_skip_ws(cont) == cont);
    assert(cont[0] == ',');
    let run = seq!['\n', ' ', ' ', ' ', ' '];
    let nxt = stage_period_text(a, rest);
    assert(cont.skip(1) =~= run + nxt);
    assert(nxt[0] == '"');
    lemma_skip_ws_run(run, nxt);
    lemma_members_period(a, rest);
}

/// Reading the `secret` member leads to the `digits` member.
#[verifier::rlimit(100)]
pub proof fn lemma_members_secret(a: AccountView, rest: Seq<char>)
    ensures
        spec_parse_members(stage_secret_text(a, rest), partial_through_name(a)) == Some(
            (partial_full(a), rest),
        ),
{
    let s = stage_secret_text(a, rest);
    let key = key_secret_chars();
    let cont = seq![',', '\n'] + field_indent() + stage_digits_text(a, rest);
    let after_colon = spec_emit_string(a.secret) + cont;
    let r1 = seq![':', ' '] + after_colon;
    lemma_parse_string_emit(key, r1);
    assert(s =~= spec_emit_string(key) + r1);
    assert(!is_json_ws(r1[0]));
    assert(spec_skip_ws(r1) == r1);
    assert(r1.skip(1) =~= seq![' '] + after_colon);
    assert(after_colon[0] == '"');
    lemma_skip_ws_run(seq![' '], after_colon);
    lemma_parse_string_emit(a.secret, cont);
    assert(key != key_name_chars()) by {
        assert(key.len() != key_name_chars().len());
    }
    assert(spec_parse_member_value(key, partial_through_name(a), after_colon) == Some(
        (partial_through_secret(a), cont),
    ));
    assert(!is_json_ws(cont[0]));
    assert(spec_skip_ws(cont) == cont);
    assert(cont[0] == ',');
    let run = seq!['\n', ' ', ' ', ' ', ' '];
    let nxt = stage_digits_text(a, rest);
    assert(cont.skip(1) =~= run + nxt);
    assert(nxt[0] == '"');
    lemma_skip_ws_run(run, nxt);
    lemma_members_digits(a, rest);
}

/// Reading the `name` member leads to the `secret` member.
#[verifier::rlimit(100)]
pub proof fn lemma_members_name(a: AccountView, rest: Seq<char>)
    ensures
        spec_parse_members(stage_name_text(a, rest), spec_empty_partial()) == Some(
            (partial_full(a), rest),
        ),
{
    let s = stage_name_text(a, rest);
    let key = key_name_chars();
    let cont = seq![',', '\n'] + field_indent() + stage_secret_text(a, rest);
    let after_colon = spec_emit_string(a.name) + cont;
    let r1 = seq![':', ' '] + after_colon;
    lemma_parse_string_emit(key, r1);
    assert(s =~= spec_emit_string(key) + r1);
    assert(!is_json_ws(r1[0]));
    assert(spec_skip_ws(r1) == r1);
    assert(r1.skip(1) =~= seq![' '] + after_colon);
    assert(after_colon[0] == '"');
    lemma_skip_ws_run(seq![' '], after_colon);
    lemma_parse_string_emit(a.name, cont);
    assert(spec_parse_member_value(key, spec_empty_partial(), after_colon) == Some(
        (partial_through_name(a), cont),
    ));
    assert(!is_json_ws(cont[0]));
    assert(spec_skip_ws(cont) == cont);
    assert(cont[0] == ',');
    let run = seq!['\n', ' ', ' ', ' ', ' '];
    let nxt = stage_secret_text(a, rest);
    assert(cont.skip(1) =~= run + nxt);
    assert(nxt[0] == '"');
    lemma_skip_ws_run(run, nxt);
    lemma_members_secret(a, rest);
}

/// The body of an emitted record, without its two-space indent.
pub open spec fn spec_record_body(a: AccountView) -> Seq<char> {
    seq!['{', '\n'] + spec_account_fields(a) + seq!['\n', ' ', ' ', '}']
}

/// The tail of an emitted record body decomposes into a whitespace run
/// and the staged member text.
#[verifier::rlimit(100)]
pub proof fn lemma_fields_decompose(a: AccountView, rest: Seq<char>)
    ensures
        (spec_record_body(a) + rest).skip(1) == seq!['\n', ' ', ' ', ' ', ' '] + stage_name_text(
            a,
            rest,
        ),
{
    assert((spec_record_body(a) + rest).skip(1) =~= seq!['\n', ' ', ' ', ' ', ' ']
        + stage_name_text(a, rest));
}

/// A full partial record closes to the account it was read from.
pub proof fn lemma_finish_full(a: AccountView)
    requires
        a.wf(),
    ensures
        spec_finish_record(partial_full(a)) == Some(a),
{
    let p = partial_full(a);
    assert(p.name == Some(a.name) && p.secret == Some(a.secret));
    assert(crate::valid_digit_count(a.digits));
    assert((a.digits as u64) == 6 || (a.digits as u64) == 7 || (a.digits as u64) == 8);
    assert(((a.digits as u64) as usize) == a.digits);
}

/// Parsing an emitted record body yields the original account.
#[verifier::rlimit(100)]
pub proof fn lemma_parse_record_emit(a: AccountView, rest: Seq<char>)
    requires
        a.wf(),
    ensures
        spec_parse_record(spec_record_body(a) + rest) == Some((a, rest)),
{
    let s = spec_record_body(a) + rest;
    assert(s[0] == '{');
    lemma_fields_decompose(a, rest);
    let run = seq!['\n', ' ', ' ', ' ', ' '];
    let nxt = stage_name_text(a, rest);
    assert(nxt[0] == '"');
    lemma_skip_ws_run(run, nxt);
    lemma_members_name(a, rest);
    lemma_finish_full(a);
}

/// Parsing emitted records through the closing bracket yields the
/// accumulated accounts.
#[verifier::rlimit(100)]
pub proof fn lemma_parse_records_emit(accts: Seq<AccountView>, acc: Seq<AccountView>, rest: Seq<char>)
    requires
        accts.len() >= 1,
        forall|i: int| 0 <= i < accts.len() ==> (#[trigger] accts[i]).wf(),
    ensures
        spec_parse_records(spec_emit_records(accts).skip(2) + (seq!['\n', ']'] + rest), acc)
            == Some((acc + accts, rest)),
    decreases accts.len(),
{
    let a0 = accts[0];
    assert(a0.wf());
    if accts.len() == 1 {
        let close = seq!['\n', ']'] + rest;
        let s = spec_emit_records(accts).skip(2) + close;
        assert(spec_emit_records(accts) == spec_emit_account(a0));
        assert(spec_emit_account(a0).skip(2) =~= spec_record_body(a0));
        let rec_rest = close;
        lemma_parse_record_emit(a0, rec_rest);
        assert(s =~= spec_record_body(a0) + rec_rest);
        assert(rec_rest[0] == '\n');
        lemma_skip_ws_run(seq!['\n'], seq![']'] + rest);
        assert(rec_rest =~= seq!['\n'] + (seq![']'] + rest));
        assert((seq![']'] + rest)[0] == ']');
        assert((seq![']'] + rest).skip(1) =~= rest);
        assert(acc.push(a0) =~= acc + accts);
    } else {
        let tail = accts.skip(1);
        let close = seq!['\n', ']'] + rest;
        let s = spec_emit_records(accts).skip(2) + close;
        let rec_rest = seq![',', '\n'] + spec_emit_records(tail) + close;
        assert(spec_emit_records(accts) == spec_emit_account(a0) + seq![',', '\n']
            + spec_emit_records(tail));
        assert(spec_emit_account(a0).skip(2) =~= spec_record_body(a0));
        assert(s =~= spec_record_body(a0) + rec_rest);
        lemma_parse_record_emit(a0, rec_rest);
        assert(!is_json_ws(rec_rest[0]));
        assert(spec_skip_ws(rec_rest) == rec_rest);
        assert(rec_rest[0] == ',');
        // after the comma: a newline, the next record's indent, then its brace
        let run = seq!['\n', ' ', ' '];
        let nxt = spec_emit_records(tail).skip(2) + close;
        assert(spec_emit_records(tail) == (if tail.len() == 1 {
            spec_emit_account(tail[0])
        } else {
            spec_emit_account(tail[0]) + seq![',', '\n'] + spec_emit_records(tail.skip(1))
        }));
        assert(spec_emit_records(tail)[0] == ' ' && spec_emit_records(tail)[1] == ' '
            && spec_emit_records(tail)[2] == '{');
        assert(rec_rest.skip(1) =~= run + nxt);
        assert(nxt[0] == '{');
        lemma_skip_ws_run(run, nxt);
        assert(forall|i: int| 0 <= i < tail.len() ==> (#[trigger] tail[i]).wf());
        lemma_parse_records_emit(tail, acc.push(a0), rest);
        assert(acc.push(a0) + tail =~= acc + accts);
    }
}

/// The round trip: parsing the emitted text of any well-formed accounts
/// yields exactly those accounts.
#[verifier::rlimit(100)]
pub proof fn lemma_parse_emit_accounts(accts: Seq<AccountView>)
    requires
        forall|i: int| 0 <= i < accts.len() ==> (#[trigger] accts[i]).wf(),
    ensures
        spec_parse_accounts(spec_emit_accounts(accts)) == Some(accts),
{
    let s = spec_emit_accounts(accts);
    if accts.len() == 0 {
        assert(s == seq!['[', ']']);
        assert(!is_json_ws(s[0]));
        assert(spec_skip_ws(s) == s);
        assert(s[0] == '[');
        assert(s.skip(1) =~= seq![']']);
        assert(!is_json_ws(seq![']'][0]));
        assert(spec_skip_ws(seq![']']) == seq![']']);
        assert(seq![']'].skip(1) =~= Seq::<char>::empty());
        assert(spec_skip_ws(Seq::<char>::empty()) == Seq::<char>::empty());
        assert(spec_parse_accounts(s) == Some(Seq::<AccountView>::empty()));
        assert(accts =~= Seq::<AccountView>::empty());
    } else {
        assert(s == seq!['[', '\n'] + spec_emit_records(accts) + seq!['\n', ']']);
        assert(!is_json_ws(s[0]));
        assert(spec_skip_ws(s) == s);
        assert(s[0] == '[');
        let run = seq!['\n', ' ', ' '];
        let nxt = spec_emit_records(accts).skip(2) + seq!['\n', ']'];
        assert(spec_emit_records(accts) == (if accts.len() == 1 {
            spec_emit_account(accts[0])
        } else {
            spec_emit_account(accts[0]) + seq![',', '\n'] + spec_emit_records(accts.skip(1))
        }));
        assert(spec_emit_records(accts)[0] == ' ' && spec_emit_records(accts)[1] == ' '
            && spec_emit_records(accts)[2] == '{');
        assert(s.skip(1) =~= run + nxt);
        assert(nxt[0] == '{');
        lemma_skip_ws_run(run, nxt);
        assert(nxt =~= spec_emit_records(accts).skip(2) + (seq!['\n', ']']
            + Seq::<char>::empty()));
        lemma_parse_records_emit(accts, Seq::empty(), Seq::empty());
        assert(spec_skip_ws(Seq::<char>::empty()) == Seq::<char>::empty());
        assert(Seq::<AccountView>::empty() + accts =~= accts);
    }
}

} // verus!
