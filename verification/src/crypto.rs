//! The commitment scheme behind a challenge.
//!
//! A challenge binds 32 random key bytes to a random secret: the commitment
//! is the hex text of an HMAC-SHA-256 tag over the secret's decimal text,
//! keyed by the hex text of the key bytes.  The key text travels to the
//! client; the secret does not, so the client must brute-force it.

use vstd::prelude::*;
use hmac::Hmac;
use hmac::Mac;
use rand::Rng;
use sha2::Sha256;
use crate::hexcodec::ascii_bytes;
use crate::hexcodec::hex_encode;
use crate::hexcodec::hex_of;
use crate::hexcodec::lemma_ascii_bytes_encode;
use crate::hexcodec::lemma_hex_of_ascii;

verus! {

/// The HMAC-SHA-256 tag for a key and a message.  The tag is a fixed
/// function of the two arguments; nothing further is assumed of it.
pub uninterp spec fn hmac_sha256_of(key: Seq<u8>, msg: Seq<u8>) -> Seq<u8>;

/// Relies on hmac's `Hmac<Sha256>`: the tag depends on key and message
/// alone and is 32 bytes long (SHA-256's output size); `new_from_slice`
/// accepts a key of any length.
#[verifier::external_body]
pub(crate) fn hmac_sha256(key: &[u8], msg: &[u8]) -> (r: Vec<u8>)
    ensures
        r@ == hmac_sha256_of(key@, msg@),
        r@.len() == 32,
{
    let mut mac = <Hmac<Sha256> as Mac>::new_from_slice(key).expect("any key length is accepted");
    mac.update(msg);
    mac.finalize().into_bytes().to_vec()
}

/// Relies on rand's thread-local generator (`Rng::fill`): fresh key
/// material.  Nothing is assumed of the bytes drawn.
#[verifier::external_body]
pub(crate) fn random_key_bytes() -> (r: [u8; 32]) {
    let mut b = [0u8; 32];
    rand::thread_rng().fill(&mut b);
    b
}

/// Relies on rand's `Rng::gen_range`: a draw below the bound.  `gen_range`
/// panics on an empty range, so the bound must be positive.
#[verifier::external_body]
pub(crate) fn random_below(bound: u64) -> (r: u64)
    requires
        1 <= bound,
    ensures
        r < bound,
{
    rand::thread_rng().gen_range(0..bound)
}

/// The MAC key a challenge uses: the hex text of its key material.
pub open spec fn mac_key_of(key_bytes: Seq<u8>) -> Seq<u8> {
    ascii_bytes(hex_of(key_bytes))
}

/// The commitment published for key material and a message: the hex text of
/// the MAC tag over the message.
pub open spec fn commitment_of(key_bytes: Seq<u8>, msg: Seq<u8>) -> Seq<char> {
    hex_of(hmac_sha256_of(mac_key_of(key_bytes), msg))
}

/// Computes a commitment, exactly as issuance and validation both do.
pub fn compute_commitment(key_bytes: &[u8], msg: &[u8]) -> (r: String)
    ensures
        r@ == commitment_of(key_bytes@, msg@),
        r@.len() == 64,
{
    let hexkey = hex_encode(key_bytes);
    proof {
        lemma_hex_of_ascii(key_bytes@);
        lemma_ascii_bytes_encode(hex_of(key_bytes@));
    }
    let tag = hmac_sha256(hexkey.as_str().as_bytes(), msg);
    hex_encode(tag.as_slice())
}

/// A fresh commenter identifier: the hex text of 32 random bytes.
pub fn fresh_commenter_id() -> (r: String)
    ensures
        exists|kb: Seq<u8>| kb.len() == 32 && r@ == hex_of(kb),
        r@.len() == 64,
{
    let kb = random_key_bytes();
    let r = hex_encode(kb.as_slice());
    proof {
        assert(kb@.len() == 32 && r@ == hex_of(kb@));
    }
    r
}

} // verus!
