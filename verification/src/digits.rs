//! Decimal text of the secret.
//!
//! A challenge's MAC is taken over the decimal text of the secret integer, so
//! the issuer must render the secret exactly as the solving client will.

use vstd::prelude::*;
use vstd::utf8::encode_utf8;
use vstd::utf8::is_ascii_chars;
use vstd::utf8::is_ascii_chars_encode_utf8;

verus! {

/// The ASCII bytes of the decimal rendering of a number, most significant
/// digit first, without leading zeros (a lone zero for zero).
pub open spec fn dec_bytes_of(n: nat) -> Seq<u8>
    decreases n,
{
    if n < 10 {
        seq![(n + 0x30) as u8]
    } else {
        dec_bytes_of(n / 10).push(((n % 10) + 0x30) as u8)
    }
}

/// The same rendering as characters.
pub open spec fn dec_chars_of(n: nat) -> Seq<char> {
    dec_bytes_of(n).map_values(|b: u8| b as char)
}

/// Decimal renderings consist of ASCII digit bytes.
pub proof fn lemma_dec_bytes_are_digits(n: nat)
    ensures
        forall|i: int|
            0 <= i < dec_bytes_of(n).len() ==> 0x30 <= #[trigger] dec_bytes_of(n)[i] <= 0x39,
    decreases n,
{
    if n < 10 {
        assert(dec_bytes_of(n) == seq![(n + 0x30) as u8]);
    } else {
        lemma_dec_bytes_are_digits(n / 10);
        let tail = ((n % 10) + 0x30) as u8;
        assert(dec_bytes_of(n) == dec_bytes_of(n / 10).push(tail));
        assert forall|i: int| 0 <= i < dec_bytes_of(n).len() implies 0x30 <= #[trigger] dec_bytes_of(
            n,
        )[i] <= 0x39 by {
            if i < dec_bytes_of(n / 10).len() {
                assert(dec_bytes_of(n)[i] == dec_bytes_of(n / 10)[i]);
            } else {
                assert(dec_bytes_of(n)[i] == tail);
            }
        }
    }
}

/// The character rendering is ASCII, and its UTF-8 encoding is exactly the
/// byte rendering: what a client sends as text is what the issuer signed.
pub proof fn lemma_dec_chars_encode(n: nat)
    ensures
        is_ascii_chars(dec_chars_of(n)),
        encode_utf8(dec_chars_of(n)) == dec_bytes_of(n),
{
    lemma_dec_bytes_are_digits(n);
    let cs = dec_chars_of(n);
    assert forall|i: int| 0 <= i < cs.len() implies '\0' <= #[trigger] cs[i] <= '\u{7f}' by {
        assert(cs[i] == dec_bytes_of(n)[i] as char);
    }
    is_ascii_chars_encode_utf8(cs);
    assert forall|i: int| 0 <= i < cs.len() implies encode_utf8(cs)[i] == #[trigger] dec_bytes_of(
        n,
    )[i] by {
        assert(cs[i] == dec_bytes_of(n)[i] as char);
        assert(encode_utf8(cs)[i] == cs[i] as u8);
    }
    assert(encode_utf8(cs) =~= dec_bytes_of(n));
}

/// The decimal digit bytes of a number, as the client's text form of a secret.
pub fn decimal_digits(n: u64) -> (r: Vec<u8>)
    ensures
        r@ == dec_bytes_of(n as nat),
    decreases n,
{
    if n < 10 {
        let mut v: Vec<u8> = Vec::new();
        v.push((n as u8) + 0x30);
        assert(v@ =~= dec_bytes_of(n as nat));
        v
    } else {
        let mut v = decimal_digits(n / 10);
        v.push(((n % 10) as u8) + 0x30);
        v
    }
}

} // verus!
