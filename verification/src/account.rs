//! One enrolled credential: a name, a Base32-encoded shared secret and
//! the TOTP parameters used to derive codes for it.

use vstd::prelude::*;

use crate::crypto::{base32_decode, base32_decode_of};
use crate::error::AppError;
use crate::strutil::chars_to_string;
use crate::totp::{
    compute_code, is_dec_digit, spec_time_remaining, spec_totp_code, time_remaining_at,
    unix_time_now, Algorithm,
};
use crate::valid_digit_count;

verus! {

/// Whitespace removed from an entered secret.
pub open spec fn spec_is_secret_space(c: char) -> bool {
    c == ' ' || c == '\t' || c == '\n' || c == '\r'
}

/// The uppercase form of an ASCII lowercase letter; other characters are
/// kept as they are.
pub open spec fn spec_ascii_upper(c: char) -> char {
    match c {
        'a' => 'A',
        'b' => 'B',
        'c' => 'C',
        'd' => 'D',
        'e' => 'E',
        'f' => 'F',
        'g' => 'G',
        'h' => 'H',
        'i' => 'I',
        'j' => 'J',
        'k' => 'K',
        'l' => 'L',
        'm' => 'M',
        'n' => 'N',
        'o' => 'O',
        'p' => 'P',
        'q' => 'Q',
        'r' => 'R',
        's' => 'S',
        't' => 'T',
        'u' => 'U',
        'v' => 'V',
        'w' => 'W',
        'x' => 'X',
        'y' => 'Y',
        'z' => 'Z',
        _ => c,
    }
}

/// An entered secret with its whitespace removed and its ASCII letters
/// uppercased, ready for Base32 decoding.
pub open spec fn spec_normalize_secret(s: Seq<char>) -> Seq<char>
    decreases s.len(),
{
    if s.len() == 0 {
        Seq::empty()
    } else {
        let rest = spec_normalize_secret(s.drop_last());
        if spec_is_secret_space(s.last()) {
            rest
        } else {
            rest.push(spec_ascii_upper(s.last()))
        }
    }
}

/// The exec counterpart of `spec_ascii_upper`.
fn ascii_upper(c: char) -> (r: char)
    ensures
        r == spec_ascii_upper(c),
{
    match c {
        'a' => 'A',
        'b' => 'B',
        'c' => 'C',
        'd' => 'D',
        'e' => 'E',
        'f' => 'F',
        'g' => 'G',
        'h' => 'H',
        'i' => 'I',
        'j' => 'J',
        'k' => 'K',
        'l' => 'L',
        'm' => 'M',
        'n' => 'N',
        'o' => 'O',
        'p' => 'P',
        'q' => 'Q',
        'r' => 'R',
        's' => 'S',
        't' => 'T',
        'u' => 'U',
        'v' => 'V',
        'w' => 'W',
        'x' => 'X',
        'y' => 'Y',
        'z' => 'Z',
        _ => c,
    }
}

/// Cleans an entered secret: removes whitespace and uppercases ASCII
/// letters, as `spec_normalize_secret` says.
pub fn normalize_secret(s: &str) -> (r: String)
    ensures
        r@ == spec_normalize_secret(s@),
{
    let cs = crate::strutil::str_to_chars(s);
    let mut out: Vec<char> = Vec::new();
    let mut i: usize = 0;
    while i < cs.len()
        invariant
            i <= cs@.len(),
            cs@ == s@,
            out@ == spec_normalize_secret(s@.take(i as int)),
        decreases cs@.len() - i,
    {
        let c = cs[i];
        proof {
            assert(s@.take(i as int + 1).drop_last() =~= s@.take(i as int));
            assert(s@.take(i as int + 1).last() == s@[i as int]);
        }
        let is_space = c == ' ' || c == '\t' || c == '\n' || c == '\r';
        if !is_space {
            out.push(ascii_upper(c));
        }
        i = i + 1;
    }
    proof {
        assert(s@.take(s@.len() as int) =~= s@);
    }
    chars_to_string(&out)
}

/// The mathematical value of an [`Account`]: its strings as character
/// sequences, everything else as plain values.
pub ghost struct AccountView {
    pub name: Seq<char>,
    pub secret: Seq<char>,
    pub digits: usize,
    pub period: u64,
    pub algorithm: Algorithm,
    pub issuer: Option<Seq<char>>,
}

impl AccountView {
    /// The invariant every account satisfies: a supported digit count and
    /// a positive rotation period.
    pub open spec fn wf(self) -> bool {
        valid_digit_count(self.digits) && self.period > 0
    }
}

/// One enrolled credential. Created whole, replaced whole on edit; the
/// secret string is kept verbatim and decoded only when a code is
/// generated.
#[derive(Debug)]
pub struct Account {
    name: String,
    secret: String,
    digits: usize,
    period: u64,
    algorithm: Algorithm,
    issuer: Option<String>,
}

impl View for Account {
    type V = AccountView;

    closed spec fn view(&self) -> AccountView {
        AccountView {
            name: self.name@,
            secret: self.secret@,
            digits: self.digits,
            period: self.period,
            algorithm: self.algorithm,
            issuer: self.issuer.deep_view(),
        }
    }
}

impl DeepView for Account {
    type V = AccountView;

    open spec fn deep_view(&self) -> AccountView {
        self.view()
    }
}

impl Clone for Account {
    /// A clone carries the same mathematical value.
    fn clone(&self) -> (r: Self)
        ensures
            r@ == self@,
    {
        Account {
            name: self.name.clone(),
            secret: self.secret.clone(),
            digits: self.digits,
            period: self.period,
            algorithm: self.algorithm,
            issuer: match &self.issuer {
                Some(s) => Some(s.clone()),
                None => None,
            },
        }
    }
}

impl Account {
    /// Builds an account from its parts. Digit count and period are
    /// validated here once; every account in circulation satisfies
    /// [`AccountView::wf`].
    pub fn new(
        name: String,
        secret: String,
        digits: usize,
        period: u64,
        algorithm: Algorithm,
        issuer: Option<String>,
    ) -> (r: Account)
        requires
            valid_digit_count(digits),
            period > 0,
        ensures
            r@ == (AccountView {
                name: name@,
                secret: secret@,
                digits,
                period,
                algorithm,
                issuer: issuer.deep_view(),
            }),
            r@.wf(),
    {
        Account { name, secret, digits, period, algorithm, issuer }
    }

    /// The display name.
    pub fn name(&self) -> (r: &str)
        ensures
            r@ == self@.name,
    {
        self.name.as_str()
    }

    /// The Base32-encoded shared secret, verbatim as it was entered.
    pub fn secret(&self) -> (r: &str)
        ensures
            r@ == self@.secret,
    {
        self.secret.as_str()
    }

    /// The number of decimal digits in a generated code.
    pub fn digits(&self) -> (r: usize)
        ensures
            r == self@.digits,
    {
        self.digits
    }

    /// The rotation period in seconds.
    pub fn period(&self) -> (r: u64)
        ensures
            r == self@.period,
    {
        self.period
    }

    /// The hash algorithm codes are derived with.
    pub fn algorithm(&self) -> (r: Algorithm)
        ensures
            r == self@.algorithm,
    {
        self.algorithm
    }

    /// The optional issuer label.
    pub fn issuer(&self) -> (r: Option<&String>)
        ensures
            match r {
                Some(s) => self@.issuer == Some(s@),
                None => self@.issuer is None,
            },
    {
        self.issuer.as_ref()
    }

    /// A copy of this account with a new name and issuer; the secret,
    /// digit count, period and algorithm are kept exactly.
    pub fn with_identity(&self, name: String, issuer: Option<String>) -> (r: Account)
        ensures
            r@ == (AccountView { name: name@, issuer: issuer.deep_view(), ..self@ }),
    {
        Account {
            name,
            secret: self.secret.clone(),
            digits: self.digits,
            period: self.period,
            algorithm: self.algorithm,
            issuer,
        }
    }

    /// Whether the stored secret decodes as Base32. Validation is
    /// advisory: an account with an undecodable secret can be stored, and
    /// code generation then reports `InvalidSecret`.
    pub fn secret_is_valid(&self) -> (r: bool)
        ensures
            r == (base32_decode_of(self@.secret) is Some),
    {
        base32_decode(self.secret.as_str()).is_some()
    }

    /// Derives the code for the window containing the given Unix time.
    /// Fails exactly when the secret is not valid Base32.
    pub fn generate_at(&self, time: u64) -> (r: Result<String, AppError>)
        requires
            self@.wf(),
        ensures
            match base32_decode_of(self@.secret) {
                Some(key) => match r {
                    Ok(code) => code@ == spec_totp_code(
                        self@.algorithm,
                        key,
                        self@.digits,
                        self@.period,
                        time,
                    ),
                    Err(_) => false,
                },
                None => r == Err::<String, AppError>(AppError::InvalidSecret),
            },
            r matches Ok(code) ==> code@.len() == self@.digits && (forall|i: int|
                0 <= i < code@.len() ==> is_dec_digit(#[trigger] code@[i])),
    {
        match base32_decode(self.secret.as_str()) {
            None => Err(AppError::InvalidSecret),
            Some(key) => {
                let code = compute_code(self.algorithm, &key, self.digits, self.period, time);
                Ok(chars_to_string(&code))
            },
        }
    }

    /// Derives the code for the current wall-clock window. Fails with
    /// `InvalidSecret` when the secret is not valid Base32, and with
    /// `ClockError` when the clock is unavailable or pre-epoch.
    pub fn generate_totp(&self) -> (r: Result<String, AppError>)
        requires
            self@.wf(),
        ensures
            base32_decode_of(self@.secret) is None ==> r == Err::<String, AppError>(
                AppError::InvalidSecret,
            ),
            base32_decode_of(self@.secret) is Some ==> (r matches Ok(_) || r == Err::<
                String,
                AppError,
            >(AppError::ClockError)),
            r matches Ok(code) ==> base32_decode_of(self@.secret) matches Some(key)
                && (exists|t: u64|
                code@ == spec_totp_code(self@.algorithm, key, self@.digits, self@.period, t)),
            r matches Ok(code) ==> code@.len() == self@.digits && (forall|i: int|
                0 <= i < code@.len() ==> is_dec_digit(#[trigger] code@[i])),
    {
        if base32_decode(self.secret.as_str()).is_none() {
            return Err(AppError::InvalidSecret);
        }
        match unix_time_now() {
            None => Err(AppError::ClockError),
            Some(t) => {
                let r = self.generate_at(t);
                proof {
                    match &r {
                        Ok(code) => {
                            let key = base32_decode_of(self@.secret)->0;
                            assert(code@ == spec_totp_code(
                                self@.algorithm,
                                key,
                                self@.digits,
                                self@.period,
                                t,
                            ));
                        },
                        Err(_) => {},
                    }
                }
                r
            },
        }
    }

    /// The seconds left in the window containing the given Unix time,
    /// always in `1..=period`; a timestamp exactly on a boundary gets the
    /// whole period.
    pub fn time_remaining_at(&self, now: u64) -> (r: u64)
        requires
            self@.wf(),
        ensures
            r == spec_time_remaining(self@.period, now),
            1 <= r <= self@.period,
    {
        time_remaining_at(self.period, now)
    }

    /// The seconds left in the current wall-clock window, always in
    /// `1..=period`. An unavailable clock counts as time zero, as if the
    /// window had just opened.
    pub fn time_remaining(&self) -> (r: u64)
        requires
            self@.wf(),
        ensures
            1 <= r <= self@.period,
            exists|t: u64| r == spec_time_remaining(self@.period, t),
    {
        let now = match unix_time_now() {
            Some(t) => t,
            None => 0,
        };
        let r = self.time_remaining_at(now);
        proof {
            assert(r == spec_time_remaining(self@.period, now));
        }
        r
    }
}

} // verus!
