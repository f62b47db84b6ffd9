//! The stateless TOTP code derivation of RFC 6238, built on the HOTP
//! dynamic truncation of RFC 4226: from secret bytes, a digit count, a
//! rotation period, a hash algorithm and a Unix timestamp to the decimal
//! code string, together with the time left in the current window.

use vstd::prelude::*;

use crate::crypto::{
    hmac_sha1, hmac_sha1_of, hmac_sha256, hmac_sha256_of, hmac_sha512, hmac_sha512_of,
};
use crate::valid_digit_count;

verus! {

/// The hash algorithms a code can be derived with.
#[derive(Debug, Clone, Copy, PartialEq, Eq, Structural)]
pub enum Algorithm {
    Sha1,
    Sha256,
    Sha512,
}

pub const DIGIT_CHARS: [char; 10] = ['0', '1', '2', '3', '4', '5', '6', '7', '8', '9'];

/// The decimal digit character for a value below ten.
pub open spec fn spec_digit_char(d: int) -> char
    recommends
        0 <= d < 10,
{
    DIGIT_CHARS@[d]
}

/// Whether a character is a decimal digit.
pub open spec fn is_dec_digit(c: char) -> bool {
    exists|d: int| 0 <= d < 10 && c == spec_digit_char(d)
}

/// Ten to the power `d`.
pub open spec fn spec_pow10(d: nat) -> nat
    decreases d,
{
    if d == 0 {
        1
    } else {
        10 * spec_pow10((d - 1) as nat)
    }
}

/// The decimal representation of `n % 10^width`, left-padded with zeros
/// to exactly `width` characters, most significant digit first.
pub open spec fn spec_fixed_decimal(n: nat, width: nat) -> Seq<char>
    decreases width,
{
    if width == 0 {
        Seq::empty()
    } else {
        spec_fixed_decimal(n / 10, (width - 1) as nat).push(spec_digit_char((n % 10) as int))
    }
}

/// The 31-bit integer that RFC 4226 dynamic truncation extracts from a
/// digest: four bytes starting at the offset given by the low nibble of
/// the last byte, with the top bit masked off.
pub open spec fn spec_truncated(h: Seq<u8>) -> nat
    recommends
        h.len() >= 20,
{
    let off = (h[h.len() - 1] & 0x0f) as int;
    ((h[off] & 0x7f) as nat) * 0x1000000 + (h[off + 1] as nat) * 0x10000 + (h[off + 2] as nat)
        * 0x100 + (h[off + 3] as nat)
}

/// The digest that the selected algorithm yields for this key and counter.
pub open spec fn spec_hmac(alg: Algorithm, key: Seq<u8>, counter: u64) -> Seq<u8> {
    match alg {
        Algorithm::Sha1 => hmac_sha1_of(key, counter),
        Algorithm::Sha256 => hmac_sha256_of(key, counter),
        Algorithm::Sha512 => hmac_sha512_of(key, counter),
    }
}

/// The TOTP code for the window containing `time`: the truncated digest
/// of the counter `time / period`, reduced modulo `10^digits` and padded
/// to `digits` characters.
pub open spec fn spec_totp_code(
    alg: Algorithm,
    key: Seq<u8>,
    digits: usize,
    period: u64,
    time: u64,
) -> Seq<char>
    recommends
        period > 0,
{
    spec_fixed_decimal(
        spec_truncated(spec_hmac(alg, key, (time as int / period as int) as u64)) % spec_pow10(
            digits as nat,
        ),
        digits as nat,
    )
}

/// The seconds left in the window containing `now`: the full period when
/// `now` sits exactly on a boundary, never zero.
pub open spec fn spec_time_remaining(period: u64, now: u64) -> int
    recommends
        period > 0,
{
    period - now % period
}

/// A fixed-width decimal string has exactly its width in characters, all
/// of them decimal digits.
pub proof fn lemma_fixed_decimal_shape(n: nat, width: nat)
    ensures
        spec_fixed_decimal(n, width).len() == width,
        forall|i: int|
            0 <= i < width ==> is_dec_digit(#[trigger] spec_fixed_decimal(n, width)[i]),
    decreases width,
{
    if width > 0 {
        lemma_fixed_decimal_shape(n / 10, (width - 1) as nat);
        assert(0 <= n % 10 < 10);
        assert(spec_fixed_decimal(n, width).last() == spec_digit_char((n % 10) as int));
        assert(is_dec_digit(spec_digit_char((n % 10) as int)));
    }
}

/// Computes the dynamic truncation of a digest of at least twenty bytes.
fn dynamic_truncate(h: &Vec<u8>) -> (r: u32)
    requires
        h@.len() >= 20,
    ensures
        r as nat == spec_truncated(h@),
        r < 0x80000000,
{
    let last = h[h.len() - 1];
    assert(last & 0x0f <= 15) by (bit_vector);
    let off = (last & 0x0f) as usize;
    let hb = h[off];
    assert(hb & 0x7f <= 0x7f) by (bit_vector);
    let b0 = hb & 0x7f;
    let b1 = h[off + 1];
    let b2 = h[off + 2];
    let b3 = h[off + 3];
    (b0 as u32) * 0x1000000 + (b1 as u32) * 0x10000 + (b2 as u32) * 0x100 + (b3 as u32)
}

/// Renders `n % 10^width` as exactly `width` decimal characters.
fn format_code(n: u32, width: usize) -> (r: Vec<char>)
    requires
        width <= 10,
    ensures
        r@ == spec_fixed_decimal(n as nat, width as nat),
        r@.len() == width,
    decreases width,
{
    proof {
        lemma_fixed_decimal_shape(n as nat, width as nat);
    }
    if width == 0 {
        Vec::new()
    } else {
        let mut v = format_code(n / 10, width - 1);
        let d = (n % 10) as usize;
        v.push(DIGIT_CHARS[d]);
        v
    }
}

/// Ten to the power of a supported digit count.
fn pow10_of_digits(digits: usize) -> (r: u32)
    requires
        valid_digit_count(digits),
    ensures
        r as nat == spec_pow10(digits as nat),
        r >= 1,
{
    let r: u32 = if digits == 6 {
        1_000_000
    } else if digits == 7 {
        10_000_000
    } else {
        100_000_000
    };
    proof {
        reveal_with_fuel(spec_pow10, 9);
    }
    r
}

/// Derives the TOTP code for the window containing `time`.
pub fn compute_code(alg: Algorithm, key: &Vec<u8>, digits: usize, period: u64, time: u64) -> (r:
    Vec<char>)
    requires
        valid_digit_count(digits),
        period > 0,
    ensures
        r@ == spec_totp_code(alg, key@, digits, period, time),
        r@.len() == digits,
        forall|i: int| 0 <= i < r@.len() ==> is_dec_digit(#[trigger] r@[i]),
{
    let counter = time / period;
    let h = match alg {
        Algorithm::Sha1 => hmac_sha1(key, counter),
        Algorithm::Sha256 => hmac_sha256(key, counter),
        Algorithm::Sha512 => hmac_sha512(key, counter),
    };
    let truncated = dynamic_truncate(&h);
    let modulus = pow10_of_digits(digits);
    let code = truncated % modulus;
    proof {
        lemma_fixed_decimal_shape(code as nat, digits as nat);
    }
    format_code(code, digits)
}

/// Computes the seconds left in the window containing `now`.
pub fn time_remaining_at(period: u64, now: u64) -> (r: u64)
    requires
        period > 0,
    ensures
        r == spec_time_remaining(period, now),
        1 <= r <= period,
{
    period - now % period
}

/// Determinism across a window: two timestamps with the same counter get
/// the same code.
pub proof fn lemma_code_same_window(
    alg: Algorithm,
    key: Seq<u8>,
    digits: usize,
    period: u64,
    t1: u64,
    t2: u64,
)
    requires
        period > 0,
        t1 as int / period as int == t2 as int / period as int,
    ensures
        spec_totp_code(alg, key, digits, period, t1) == spec_totp_code(alg, key, digits, period, t2),
{
}

/// Within one window the remaining time falls exactly with the clock, and
/// on a boundary it is the whole period again.
pub proof fn lemma_time_remaining_window(period: u64, t1: u64, t2: u64)
    requires
        period > 0,
        t1 <= t2,
        t1 as int / period as int == t2 as int / period as int,
    ensures
        spec_time_remaining(period, t2) == spec_time_remaining(period, t1) - (t2 - t1),
        t1 < t2 ==> spec_time_remaining(period, t2) < spec_time_remaining(period, t1),
{
    vstd::arithmetic::div_mod::lemma_fundamental_div_mod(t1 as int, period as int);
    vstd::arithmetic::div_mod::lemma_fundamental_div_mod(t2 as int, period as int);
}

/// On a period boundary the full period remains.
pub proof fn lemma_time_remaining_boundary(period: u64, now: u64)
    requires
        period > 0,
        now as int % period as int == 0,
    ensures
        spec_time_remaining(period, now) == period,
{
}

/// A code split in half with a space for display; codes of three
/// characters or fewer are kept whole.
pub fn format_totp(code: &str) -> (r: String)
    ensures
        code@.len() <= 3 ==> r@ == code@,
        code@.len() > 3 ==> r@ == code@.take(code@.len() as int / 2) + seq![' '] + code@.skip(
            code@.len() as int / 2,
        ),
{
    let cs = crate::strutil::str_to_chars(code);
    if cs.len() <= 3 {
        return crate::strutil::chars_to_string(&cs);
    }
    let mid = cs.len() / 2;
    let mut out: Vec<char> = Vec::new();
    let mut i: usize = 0;
    while i < mid
        invariant
            cs@ == code@,
            mid == cs@.len() as int / 2,
            i <= mid <= cs@.len(),
            out@ == cs@.take(i as int),
        decreases mid - i,
    {
        out.push(cs[i]);
        proof {
            assert(out@ =~= cs@.take(i as int + 1));
        }
        i = i + 1;
    }
    out.push(' ');
    let ghost g1 = out@;
    let mut j: usize = mid;
    while j < cs.len()
        invariant
            cs@ == code@,
            g1 == cs@.take(mid as int) + seq![' '],
            mid <= j <= cs@.len(),
            out@ == g1 + cs@.subrange(mid as int, j as int),
        decreases cs@.len() - j,
    {
        out.push(cs[j]);
        proof {
            assert(out@ =~= g1 + cs@.subrange(mid as int, j as int + 1));
        }
        j = j + 1;
    }
    proof {
        assert(cs@.subrange(mid as int, cs@.len() as int) =~= cs@.skip(mid as int));
        assert(out@ =~= code@.take(code@.len() as int / 2) + seq![' '] + code@.skip(
            code@.len() as int / 2,
        ));
    }
    crate::strutil::chars_to_string(&out)
}

/// Relies on `std::time::SystemTime::now` and `duration_since`: seconds
/// elapsed since the Unix epoch, or nothing when the clock reports a time
/// before the epoch. Nothing further can be promised of a clock reading.
#[verifier::external_body]
pub(crate) fn unix_time_now() -> (r: Option<u64>) {
    match std::time::SystemTime::now().duration_since(std::time::UNIX_EPOCH) {
        Ok(d) => Some(d.as_secs()),
        Err(_) => None,
    }
}

} // verus!
