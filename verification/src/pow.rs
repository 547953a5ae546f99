//! The proof-of-work gate.
//!
//! One table of pending challenges (commitment text to issuing identity and
//! key material) and one of activity windows (identity to recent attempt
//! timestamps) back three operations: recording and counting attempts,
//! minting challenges for identities that run hot, and validating and
//! consuming solved challenges.

use vstd::prelude::*;
use vstd::arithmetic::power2::lemma2_to64;
use vstd::arithmetic::power2::lemma2_to64_rest;
use vstd::arithmetic::power2::lemma_pow2_strictly_increases;
use vstd::arithmetic::power2::lemma_pow2_unfold;
use vstd::arithmetic::power2::pow2;
use vstd::utf8::encode_utf8;
use crate::crypto::commitment_of;
use crate::crypto::compute_commitment;
use crate::crypto::random_below;
use crate::crypto::random_key_bytes;
use crate::digits::dec_bytes_of;
use crate::digits::dec_chars_of;
use crate::digits::decimal_digits;
use crate::digits::lemma_dec_chars_encode;
use crate::hexcodec::hex_encode;
use crate::hexcodec::hex_of;
use crate::strmap::StrMap;
use crate::window::fresh_at;
use crate::window::fresh_of;
use crate::window::lemma_recorded_count;
use crate::window::record_result;
use crate::window::recorded_count;
use crate::window::trailing_count;
use crate::window::window_count;
use crate::window::window_record;
use crate::FREE_ATTEMPTS;
use crate::WINDOW_SLOTS;

verus! {

/// A minted challenge as it travels to the client: the hex text of the key
/// material, and the commitment the client must invert.
pub struct Pow {
    pub key: String,
    pub challenge: String,
}

/// A pending challenge as the server remembers it: the identity it was issued
/// to and the key material that keys its MAC.
pub struct PowChallenge {
    pub client_ip: String,
    pub key: [u8; 32],
}

/// A transport-level verdict for a gated operation that may not proceed as
/// asked: a code, an optional reason, and an optional freshly minted
/// challenge.
pub struct PowError {
    pub code: u16,
    pub status: Option<String>,
    pub challenge: Option<String>,
    pub key: Option<String>,
}

/// Why a claimed solution was rejected.
#[derive(Clone, Copy, PartialEq, Eq, Structural, Debug)]
pub enum Rejection {
    /// The commitment is not pending: never issued, already consumed, or
    /// evicted.
    UnknownChallenge,
    /// The solution came from a different identity than the challenge was
    /// issued to.
    IdentityMismatch,
    /// The recomputed commitment does not match; the challenge stays
    /// pending.
    WrongSolution,
}

/// What a claimed solution yields against a table of pending challenges.
pub open spec fn validate_outcome(
    m: Map<Seq<char>, (Seq<char>, Seq<u8>)>,
    ip: Seq<char>,
    c: Seq<char>,
    msg: Seq<u8>,
) -> Result<(), Rejection> {
    if !m.contains_key(c) {
        Err(Rejection::UnknownChallenge)
    } else if m[c].0 != ip {
        Err(Rejection::IdentityMismatch)
    } else if commitment_of(m[c].1, msg) == c {
        Ok(())
    } else {
        Err(Rejection::WrongSolution)
    }
}

/// The table of pending challenges after a claimed solution: consumed on
/// success, untouched otherwise.
pub open spec fn validate_next(
    m: Map<Seq<char>, (Seq<char>, Seq<u8>)>,
    ip: Seq<char>,
    c: Seq<char>,
    msg: Seq<u8>,
) -> Map<Seq<char>, (Seq<char>, Seq<u8>)> {
    if validate_outcome(m, ip, c, msg) is Ok {
        m.remove(c)
    } else {
        m
    }
}

/// The difficulty for a trailing count above the free threshold, clamped so
/// that the secret's search space stays within a 64-bit integer.
pub open spec fn difficulty_bits(count: u32) -> u32
    recommends
        count > FREE_ATTEMPTS,
{
    if 16 + count - FREE_ATTEMPTS > 63 {
        63
    } else {
        (16 + count - FREE_ATTEMPTS) as u32
    }
}

/// A challenge was minted from key material `kb` and secret `s`: the key
/// text and commitment are their renderings, the secret lies below the
/// difficulty's search space, and the commitment is now pending for `ip`.
pub open spec fn issued_with(
    chpre: Map<Seq<char>, (Seq<char>, Seq<u8>)>,
    chpost: Map<Seq<char>, (Seq<char>, Seq<u8>)>,
    ip: Seq<char>,
    bits: u32,
    key_text: Seq<char>,
    commitment: Seq<char>,
    kb: Seq<u8>,
    s: u64,
) -> bool {
    &&& kb.len() == 32
    &&& (s as nat) < pow2(bits as nat)
    &&& key_text == hex_of(kb)
    &&& commitment == commitment_of(kb, dec_bytes_of(s as nat))
    &&& commitment.len() == 64
    &&& chpost == chpre.insert(commitment, (ip, kb))
}

/// A challenge was minted for `ip` at the given difficulty from some key
/// material and secret.
pub open spec fn challenge_issued(
    chpre: Map<Seq<char>, (Seq<char>, Seq<u8>)>,
    chpost: Map<Seq<char>, (Seq<char>, Seq<u8>)>,
    ip: Seq<char>,
    bits: u32,
    key_text: Seq<char>,
    commitment: Seq<char>,
) -> bool {
    exists|kb: Seq<u8>, s: u64|
        issued_with(chpre, chpost, ip, bits, key_text, commitment, kb, s)
}

/// Relies on std::time::SystemTime::now: the wall clock as whole seconds
/// since the Unix epoch (zero if the clock reads earlier than the epoch).
/// Nothing is assumed of the value: the clock may jump either way.
#[verifier::external_body]
pub(crate) fn now_seconds() -> (r: u64) {
    match std::time::SystemTime::now().duration_since(std::time::SystemTime::UNIX_EPOCH) {
        Ok(d) => d.as_secs(),
        Err(_) => 0,
    }
}

/// Two raised to `bits`, computed without overflow.
fn pow2_u64(bits: u32) -> (r: u64)
    requires
        bits <= 63,
    ensures
        r == pow2(bits as nat),
        r >= 1,
{
    let mut r: u64 = 1;
    let mut i: u32 = 0;
    proof {
        lemma2_to64();
    }
    while i < bits
        invariant
            i <= bits <= 63,
            r == pow2(i as nat),
            r >= 1,
        decreases bits - i,
    {
        proof {
            lemma2_to64();
            lemma2_to64_rest();
            if (i as nat) < 62 {
                lemma_pow2_strictly_increases(i as nat, 62);
            }
            lemma_pow2_unfold((i + 1) as nat);
        }
        r = r * 2;
        i = i + 1;
    }
    r
}

/// The clamped difficulty for a trailing count above the free threshold.
fn difficulty_for(count: u32) -> (r: u32)
    requires
        count > FREE_ATTEMPTS,
    ensures
        r == difficulty_bits(count),
        r <= 63,
{
    if count > 52 {
        63
    } else {
        16 + count - FREE_ATTEMPTS
    }
}

/// How one recording-and-counting step at time `now` relates the table's
/// state before and after, and the count it reports.
pub open spec fn txcount_post(
    pre: PowTable,
    post: PowTable,
    ip: Seq<char>,
    add_transaction: bool,
    now: u64,
    count: u32,
) -> bool {
    &&& post.challenges_view() == pre.challenges_view()
    &&& if add_transaction {
        &&& post.activity_view() == pre.activity_view().insert(
            ip,
            record_result(pre.window_of(ip), now),
        )
        &&& count == recorded_count(pre.window_of(ip), now)
    } else {
        &&& post == pre
        &&& count == trailing_count(pre.window_of(ip), now)
    }
}

/// How one challenge probe at time `now` relates the table's state before
/// and after, and what it hands back: the attempt is recorded, and a
/// challenge at the scaled difficulty is minted exactly when the trailing
/// count passes the free threshold.
pub open spec fn challenge_probe_post(
    pre: PowTable,
    post: PowTable,
    ip: Seq<char>,
    now: u64,
    r: Option<Pow>,
) -> bool {
    &&& post.activity_view() == pre.activity_view().insert(
        ip,
        record_result(pre.window_of(ip), now),
    )
    &&& ({
        let count = recorded_count(pre.window_of(ip), now);
        if count > FREE_ATTEMPTS {
            match r {
                Some(pow) => challenge_issued(
                    pre.challenges_view(),
                    post.challenges_view(),
                    ip,
                    difficulty_bits(count as u32),
                    pow.key@,
                    pow.challenge@,
                ),
                None => false,
            }
        } else {
            r is None && post.challenges_view() == pre.challenges_view()
        }
    })
}

/// The throttle: every gated operation consults it, and it alone owns the
/// pending challenges and the activity windows.
pub struct PowTable {
    challenges: StrMap<PowChallenge>,
    transactions: StrMap<Vec<u64>>,
}

impl PowTable {
    /// Pending challenges: commitment text to issuing identity and key
    /// material.
    pub closed spec fn challenges_view(self) -> Map<Seq<char>, (Seq<char>, Seq<u8>)> {
        self.challenges@.map_values(|pc: PowChallenge| (pc.client_ip@, pc.key@))
    }

    /// Activity windows: identity to its recorded attempt timestamps.
    pub closed spec fn activity_view(self) -> Map<Seq<char>, Seq<u64>> {
        self.transactions@.map_values(|w: Vec<u64>| w@)
    }

    /// One identity's window; an identity never seen has an empty one.
    pub open spec fn window_of(self, ip: Seq<char>) -> Seq<u64> {
        if self.activity_view().contains_key(ip) {
            self.activity_view()[ip]
        } else {
            Seq::empty()
        }
    }

    /// Well-formed: the backing tables hold no duplicate keys, and no window
    /// has outgrown its capacity.
    pub closed spec fn wf(self) -> bool {
        &&& self.challenges.wf()
        &&& self.transactions.wf()
        &&& forall|k: Seq<char>|
            self.activity_view().contains_key(k) ==> (#[trigger] self.activity_view()[k]).len()
                <= WINDOW_SLOTS
    }

    /// A gate with nothing pending and nothing recorded.
    pub fn new() -> (r: Self)
        ensures
            r.wf(),
            r.challenges_view() == Map::<Seq<char>, (Seq<char>, Seq<u8>)>::empty(),
            r.activity_view() == Map::<Seq<char>, Seq<u64>>::empty(),
    {
        let r = PowTable { challenges: StrMap::new(), transactions: StrMap::new() };
        proof {
            assert(r.challenges_view() =~= Map::<Seq<char>, (Seq<char>, Seq<u8>)>::empty());
            assert(r.activity_view() =~= Map::<Seq<char>, Seq<u64>>::empty());
        }
        r
    }

    /// Records an attempt (when asked to) and reports the identity's
    /// trailing count at the given time, the recorded attempt included.
    pub fn get_txcount_at(&mut self, ip: &str, add_transaction: bool, now: u64) -> (count: u32)
        requires
            old(self).wf(),
        ensures
            final(self).wf(),
            final(self).challenges_view() == old(self).challenges_view(),
            add_transaction ==> final(self).activity_view() == old(self).activity_view().insert(
                ip@,
                record_result(old(self).window_of(ip@), now),
            ) && count == recorded_count(old(self).window_of(ip@), now),
            !add_transaction ==> *final(self) == *old(self) && count == trailing_count(
                old(self).window_of(ip@),
                now,
            ),
            count <= WINDOW_SLOTS,
            add_transaction ==> count >= 1,
    {
        let ghost w0 = old(self).window_of(ip@);
        proof {
            if old(self).activity_view().contains_key(ip@) {
                assert(w0.len() <= WINDOW_SLOTS);
            } else {
                reveal(Seq::filter);
            }
            lemma_recorded_count(w0, now);
            w0.lemma_filter_len(|t: u64| fresh_at(t, now));
        }
        let key: String = ip.to_owned();
        let new_window: Vec<u64>;
        match self.transactions.get(&key) {
            Some(w) => {
                proof {
                    assert(self.activity_view().contains_key(ip@));
                    assert(self.activity_view()[ip@] == w@);
                }
                if add_transaction {
                    new_window = window_record(w, now);
                } else {
                    return window_count(w, now);
                }
            },
            None => {
                proof {
                    reveal(Seq::filter);
                    assert(fresh_of(Seq::<u64>::empty(), now) =~= Seq::<u64>::empty());
                }
                if add_transaction {
                    let mut first: Vec<u64> = Vec::new();
                    first.push(now);
                    proof {
                        assert(first@ =~= record_result(old(self).window_of(ip@), now));
                    }
                    new_window = first;
                } else {
                    return 0;
                }
            },
        }
        let count = new_window.len() as u32;
        let ghost pre = *self;
        self.transactions.insert(key, new_window);
        proof {
            assert(self.activity_view() =~= pre.activity_view().insert(
                ip@,
                record_result(pre.window_of(ip@), now),
            ));
            assert(self.challenges_view() =~= pre.challenges_view());
            assert forall|k: Seq<char>|
                self.activity_view().contains_key(k) implies (#[trigger] self.activity_view()[k]).len()
                <= WINDOW_SLOTS by {
                if k != ip@ {
                    assert(self.activity_view()[k] == pre.activity_view()[k]);
                }
            }
        }
        count
    }

    /// Records an attempt (when asked to) and reports the identity's
    /// trailing count at the wall clock's reading.
    pub fn get_txcount(&mut self, ip: &str, add_transaction: bool) -> (count: u32)
        requires
            old(self).wf(),
        ensures
            final(self).wf(),
            final(self).challenges_view() == old(self).challenges_view(),
            exists|now: u64|
                txcount_post(*old(self), *final(self), ip@, add_transaction, now, count),
    {
        let now = now_seconds();
        let count = self.get_txcount_at(ip, add_transaction, now);
        proof {
            assert(txcount_post(*old(self), *self, ip@, add_transaction, now, count));
        }
        count
    }

    /// Mints a challenge for `ip` from the given key material and secret
    /// text, stores it as pending, and returns what the client is shown.
    pub fn make_challenge(&mut self, ip: &str, key_bytes: &[u8; 32], secret_text: &Vec<u8>) -> (r:
        Pow)
        requires
            old(self).wf(),
        ensures
            final(self).wf(),
            r.key@ == hex_of(key_bytes@),
            r.challenge@ == commitment_of(key_bytes@, secret_text@),
            r.challenge@.len() == 64,
            final(self).challenges_view() == old(self).challenges_view().insert(
                r.challenge@,
                (ip@, key_bytes@),
            ),
            final(self).activity_view() == old(self).activity_view(),
    {
        let hexkey = hex_encode(key_bytes.as_slice());
        let commitment = compute_commitment(key_bytes.as_slice(), secret_text.as_slice());
        let pc = PowChallenge { client_ip: ip.to_owned(), key: *key_bytes };
        let ghost pre = *self;
        self.challenges.insert(commitment.clone(), pc);
        proof {
            assert(self.challenges_view() =~= pre.challenges_view().insert(
                commitment@,
                (ip@, key_bytes@),
            ));
            assert(self.activity_view() =~= pre.activity_view());
        }
        Pow { key: hexkey, challenge: commitment }
    }

    /// Mints a challenge for `ip` at the given difficulty: fresh random key
    /// material, and a random secret below the difficulty's search space.
    pub fn generate_pow(&mut self, ip: &str, bits: u32) -> (r: Pow)
        requires
            old(self).wf(),
            bits <= 63,
        ensures
            final(self).wf(),
            challenge_issued(
                old(self).challenges_view(),
                final(self).challenges_view(),
                ip@,
                bits,
                r.key@,
                r.challenge@,
            ),
            final(self).activity_view() == old(self).activity_view(),
    {
        let key_bytes = random_key_bytes();
        let bound = pow2_u64(bits);
        let secret = random_below(bound);
        let digits = decimal_digits(secret);
        let r = self.make_challenge(ip, &key_bytes, &digits);
        proof {
            assert(issued_with(
                old(self).challenges_view(),
                self.challenges_view(),
                ip@,
                bits,
                r.key@,
                r.challenge@,
                key_bytes@,
                secret,
            ));
        }
        r
    }

    /// Records an attempt for `ip` at the given time and, if its trailing
    /// count has passed the free threshold, mints a challenge at the scaled
    /// difficulty.
    pub fn get_challenge_at(&mut self, ip: &str, now: u64) -> (r: Option<Pow>)
        requires
            old(self).wf(),
        ensures
            final(self).wf(),
            challenge_probe_post(*old(self), *final(self), ip@, now, r),
    {
        let count = self.get_txcount_at(ip, true, now);
        if count > FREE_ATTEMPTS {
            let bits = difficulty_for(count);
            Some(self.generate_pow(ip, bits))
        } else {
            None
        }
    }

    /// Records an attempt for `ip` at the wall clock's reading and mints a
    /// challenge if the identity has run past the free threshold.
    pub fn get_challenge(&mut self, ip: &str) -> (r: Option<Pow>)
        requires
            old(self).wf(),
        ensures
            final(self).wf(),
            exists|now: u64| challenge_probe_post(*old(self), *final(self), ip@, now, r),
    {
        let now = now_seconds();
        let r = self.get_challenge_at(ip, now);
        proof {
            assert(challenge_probe_post(*old(self), *self, ip@, now, r));
        }
        r
    }

    /// Checks a claimed solution: the commitment must be pending, issued to
    /// the same identity, and the MAC over the claimed secret's text must
    /// reproduce it; success consumes the challenge.
    pub fn validate_pow(&mut self, ip: &String, client_challenge: &str, client_secret: &str) -> (r:
        Result<(), Rejection>)
        requires
            old(self).wf(),
        ensures
            final(self).wf(),
            r == validate_outcome(
                old(self).challenges_view(),
                ip@,
                client_challenge@,
                encode_utf8(client_secret@),
            ),
            final(self).challenges_view() == validate_next(
                old(self).challenges_view(),
                ip@,
                client_challenge@,
                encode_utf8(client_secret@),
            ),
            final(self).activity_view() == old(self).activity_view(),
    {
        let ckey: String = client_challenge.to_owned();
        let ip_matches: bool;
        let stored_key: [u8; 32];
        match self.challenges.get(&ckey) {
            None => {
                proof {
                    assert(!self.challenges_view().contains_key(client_challenge@));
                }
                return Err(Rejection::UnknownChallenge);
            },
            Some(pc) => {
                proof {
                    assert(self.challenges_view().contains_key(client_challenge@));
                    assert(self.challenges_view()[client_challenge@] == (pc.client_ip@, pc.key@));
                }
                ip_matches = pc.client_ip == *ip;
                stored_key = pc.key;
            },
        }
        if !ip_matches {
            return Err(Rejection::IdentityMismatch);
        }
        let computed = compute_commitment(stored_key.as_slice(), client_secret.as_bytes());
        if computed == ckey {
            let ghost pre = *self;
            self.challenges.remove_key(&ckey);
            proof {
                assert(self.challenges_view() =~= pre.challenges_view().remove(client_challenge@));
                assert(self.activity_view() =~= pre.activity_view());
            }
            Ok(())
        } else {
            Err(Rejection::WrongSolution)
        }
    }

    /// Gates one operation at the given time.  A full proof is validated
    /// and, on success, admits the call outright; a commitment without a
    /// secret is malformed; with no proof at all, the attempt is recorded
    /// and a challenge is minted if the identity has run past the free
    /// threshold.  `None` means the operation may proceed.
    pub fn handle_at(
        &mut self,
        ip: &String,
        challenge: &Option<String>,
        secret: &Option<String>,
        now: u64,
    ) -> (r: Option<PowError>)
        requires
            old(self).wf(),
        ensures
            final(self).wf(),
            handle_post(*old(self), *final(self), ip@, *challenge, *secret, now, r),
    {
        match challenge {
            Some(c) => match secret {
                Some(s) => match self.validate_pow(ip, c.as_str(), s.as_str()) {
                    Ok(()) => None,
                    Err(_) => Some(
                        PowError {
                            code: 403,
                            status: Some("Challenge not accepted.".to_owned()),
                            challenge: None,
                            key: None,
                        },
                    ),
                },
                None => Some(
                    PowError {
                        code: 500,
                        status: Some("Challenge proof incomplete: no secret provided".to_owned()),
                        challenge: None,
                        key: None,
                    },
                ),
            },
            None => match self.get_challenge_at(ip.as_str(), now) {
                Some(pow) => Some(
                    PowError {
                        code: 401,
                        status: None,
                        challenge: Some(pow.challenge),
                        key: Some(pow.key),
                    },
                ),
                None => None,
            },
        }
    }

    /// Gates one operation at the wall clock's reading.
    pub fn handle(&mut self, ip: &String, challenge: &Option<String>, secret: &Option<String>) -> (r:
        Option<PowError>)
        requires
            old(self).wf(),
        ensures
            final(self).wf(),
            exists|now: u64| handle_post(*old(self), *final(self), ip@, *challenge, *secret, now, r),
    {
        let now = now_seconds();
        let r = self.handle_at(ip, challenge, secret, now);
        proof {
            assert(handle_post(*old(self), *self, ip@, *challenge, *secret, now, r));
        }
        r
    }
}

/// The reason text a rejection is reported with on the wire.
pub open spec fn rejection_text(rej: Rejection) -> Seq<char> {
    match rej {
        Rejection::UnknownChallenge => "Invalid challenge"@,
        Rejection::IdentityMismatch => "Forbidden. Client IP Mismatch."@,
        Rejection::WrongSolution => "Forbidden"@,
    }
}

impl Rejection {
    /// The reason text for this rejection.
    pub fn reason(&self) -> (r: String)
        ensures
            r@ == rejection_text(*self),
    {
        match self {
            Rejection::UnknownChallenge => "Invalid challenge".to_owned(),
            Rejection::IdentityMismatch => "Forbidden. Client IP Mismatch.".to_owned(),
            Rejection::WrongSolution => "Forbidden".to_owned(),
        }
    }
}

/// Renders a challenge probe's outcome on the wire: the issued code with
/// the minted key and commitment, or the no-challenge code with both
/// fields empty.  (The codes and field contents follow the HTTP contract.)
pub fn probe_reply(r: Option<Pow>) -> (out: (u16, String, String))
    ensures
        match r {
            Some(p) => out.0 == 401 && out.1@ == p.key@ && out.2@ == p.challenge@,
            None => out.0 == 300 && out.1@ == Seq::<char>::empty() && out.2@
                == Seq::<char>::empty(),
        },
{
    match r {
        Some(p) => (401, p.key, p.challenge),
        None => (300, String::new(), String::new()),
    }
}

/// Renders a validation outcome on the wire: success, or the rejection's
/// reason text under a client-fault code.  A rejected proof is the client's
/// doing and never shares the server-fault code that an internal failure
/// is reported with.
pub fn validate_reply(r: &Result<(), Rejection>) -> (out: (u16, String))
    ensures
        match r {
            Ok(()) => out.0 == 200 && out.1@ == "OK"@,
            Err(rej) => out.0 == 403 && out.1@ == rejection_text(*rej),
        },
{
    match r {
        Ok(()) => (200, "OK".to_owned()),
        Err(rej) => (403, rej.reason()),
    }
}

/// How one gated call at time `now` relates the table's state before and
/// after, and the verdict it renders.
pub open spec fn handle_post(
    pre: PowTable,
    post: PowTable,
    ip: Seq<char>,
    challenge: Option<String>,
    secret: Option<String>,
    now: u64,
    r: Option<PowError>,
) -> bool {
    match challenge {
        Some(c) => match secret {
            Some(s) => {
                &&& post.challenges_view() == validate_next(
                    pre.challenges_view(),
                    ip,
                    c@,
                    encode_utf8(s@),
                )
                &&& post.activity_view() == pre.activity_view()
                &&& match validate_outcome(pre.challenges_view(), ip, c@, encode_utf8(s@)) {
                    Ok(()) => r is None,
                    Err(_) => match r {
                        Some(e) => {
                            &&& e.code == 403
                            &&& (e.status matches Some(st) && st@ == "Challenge not accepted."@)
                            &&& e.challenge is None
                            &&& e.key is None
                        },
                        None => false,
                    },
                }
            },
            None => {
                &&& post == pre
                &&& match r {
                    Some(e) => {
                        &&& e.code == 500
                        &&& (e.status matches Some(st) && st@
                            == "Challenge proof incomplete: no secret provided"@)
                        &&& e.challenge is None
                        &&& e.key is None
                    },
                    None => false,
                }
            },
        },
        None => match r {
            Some(e) => {
                &&& e.code == 401
                &&& e.status is None
                &&& match (e.key, e.challenge) {
                    (Some(k), Some(c2)) => challenge_probe_post(
                        pre,
                        post,
                        ip,
                        now,
                        Some(Pow { key: k, challenge: c2 }),
                    ),
                    _ => false,
                }
            },
            None => challenge_probe_post(pre, post, ip, now, None),
        },
    }
}


/// Law: difficulty starts mild just past the free threshold, never
/// decreases as the trailing count grows, and never passes the clamp under
/// which the secret's search space fits a 64-bit integer.
pub proof fn lemma_difficulty_scale(c1: u32, c2: u32)
    requires
        FREE_ATTEMPTS < c1 <= c2,
    ensures
        difficulty_bits((FREE_ATTEMPTS + 1) as u32) == 17,
        c1 <= 52 ==> difficulty_bits(c1) == c1 + 11,
        difficulty_bits(c1) <= difficulty_bits(c2),
        17 <= difficulty_bits(c1) <= 63,
{
}

/// Law: a challenge validates at most once.  After a successful
/// validation consumes it, any further claim against the same commitment
/// reports it unknown, whoever makes it and whatever secret it carries.
pub proof fn lemma_challenge_single_use(
    m: Map<Seq<char>, (Seq<char>, Seq<u8>)>,
    ip: Seq<char>,
    c: Seq<char>,
    msg: Seq<u8>,
)
    requires
        validate_outcome(m, ip, c, msg) is Ok,
    ensures
        forall|ip2: Seq<char>, msg2: Seq<u8>|
            validate_outcome(validate_next(m, ip, c, msg), ip2, c, msg2) == Err::<(), Rejection>(
                Rejection::UnknownChallenge,
            ),
{
}

/// Law: a challenge answers only to the identity it was issued to.  Any
/// other identity is turned away with an identity mismatch, even when it
/// carries the mathematically correct secret, and the challenge stays
/// pending.
pub proof fn lemma_identity_binding(
    m: Map<Seq<char>, (Seq<char>, Seq<u8>)>,
    other: Seq<char>,
    c: Seq<char>,
    msg: Seq<u8>,
)
    requires
        m.contains_key(c),
        m[c].0 != other,
    ensures
        validate_outcome(m, other, c, msg) == Err::<(), Rejection>(Rejection::IdentityMismatch),
        validate_next(m, other, c, msg) == m,
{
}

/// Law: a claimed secret whose commitment does not reproduce the pending
/// one is rejected as a wrong solution and leaves the challenge in place,
/// still solvable by a later claim whose commitment does.
pub proof fn lemma_wrong_solution_retry(
    m: Map<Seq<char>, (Seq<char>, Seq<u8>)>,
    ip: Seq<char>,
    c: Seq<char>,
    wrong: Seq<u8>,
    right: Seq<u8>,
)
    requires
        m.contains_key(c),
        m[c].0 == ip,
        commitment_of(m[c].1, wrong) != c,
        commitment_of(m[c].1, right) == c,
    ensures
        validate_outcome(m, ip, c, wrong) == Err::<(), Rejection>(Rejection::WrongSolution),
        validate_next(m, ip, c, wrong) == m,
        validate_outcome(validate_next(m, ip, c, wrong), ip, c, right) is Ok,
{
}

/// Law: issuance round-trips.  The commitment pending for key material
/// `kb` and secret `s` is exactly the MAC text the validator recomputes
/// from the client's decimal rendering of `s`, so the issuing identity's
/// claim with that rendering succeeds and consumes the challenge.
pub proof fn lemma_round_trip(
    m: Map<Seq<char>, (Seq<char>, Seq<u8>)>,
    ip: Seq<char>,
    kb: Seq<u8>,
    s: u64,
)
    requires
        m.contains_key(commitment_of(kb, dec_bytes_of(s as nat))),
        m[commitment_of(kb, dec_bytes_of(s as nat))] == (ip, kb),
    ensures
        ({
            let c = commitment_of(kb, dec_bytes_of(s as nat));
            let msg = encode_utf8(dec_chars_of(s as nat));
            &&& validate_outcome(m, ip, c, msg) is Ok
            &&& validate_next(m, ip, c, msg) == m.remove(c)
        }),
{
    lemma_dec_chars_encode(s as nat);
}

} // verus!
