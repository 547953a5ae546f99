//! Adaptive anti-automation gate for a commenting backend.
//!
//! The heart of the crate is a proof-of-work gate: a rate tracker that counts
//! a client's recent attempts, a challenge issuer that mints single-use
//! HMAC-based puzzles when a client runs hot, and a validator that checks and
//! consumes solved challenges.  Around it stand the small pure pieces of the
//! server: configuration data, request helpers, and text codecs.

pub mod config;
pub mod crypto;
pub mod digits;
pub mod hexcodec;
pub mod pow;
pub mod requests;
pub mod strmap;
pub mod textcodec;
pub mod window;

use vstd::prelude::*;

verus! {

/// Upper bound (exclusive, in seconds) on the age of an attempt that still
/// counts towards a client's trailing activity.
pub const WINDOW_SECONDS: u64 = 30;

/// Number of attempt timestamps retained per client identity.
pub const WINDOW_SLOTS: usize = 32;

/// Trailing counts at or below this threshold are admitted without a challenge.
pub const FREE_ATTEMPTS: u32 = 5;

} // verus!
