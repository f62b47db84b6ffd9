//! A TOTP (time-based one-time password) code generator with a
//! file-backed account store.
//!
//! The crate is organized around three pieces:
//! - [`totp`]: the stateless RFC 6238 / RFC 4226 code derivation,
//!   parameterized by secret bytes, digit count, period, algorithm and a
//!   Unix timestamp;
//! - [`account`]: an immutable value object holding the TOTP parameters
//!   for one enrolled credential;
//! - [`storage`]: a name-keyed collection of accounts together with the
//!   JSON codec used to persist them, including corruption recovery.

use vstd::prelude::*;

pub mod account;
pub mod config;
pub mod crypto;
pub mod error;
pub mod json;
pub mod storage;
pub mod strutil;
pub mod totp;

verus! {

/// The decimal digit counts a generated code may have.
pub open spec fn valid_digit_count(d: usize) -> bool {
    d == 6 || d == 7 || d == 8
}

} // verus!
