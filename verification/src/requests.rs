//! Pure rules applied to incoming requests.
//!
//! The HTTP layer extracts raw header values and form fields; the decisions
//! taken over them live here, where they carry contracts.

use vstd::prelude::*;

verus! {

/// The client identity for a request: the forwarding proxy's header if one
/// came, else the reverse proxy's, else the socket peer's address, else
/// empty.  A header that was present but unreadable counts as an empty
/// identity, not as absent.
pub fn choose_client_ip(forwarded: Option<String>, real_ip: Option<String>, peer: Option<String>) -> (r:
    String)
    ensures
        r@ == match (forwarded, real_ip, peer) {
            (Some(f), _, _) => f@,
            (None, Some(x), _) => x@,
            (None, None, Some(p)) => p@,
            (None, None, None) => Seq::<char>::empty(),
        },
{
    match forwarded {
        Some(f) => f,
        None => match real_ip {
            Some(x) => x,
            None => match peer {
                Some(p) => p,
                None => String::new(),
            },
        },
    }
}

/// A vote may only be a downvote, a retraction, or an upvote.
pub fn vote_in_range(vote: i64) -> (r: bool)
    ensures
        r == (-1 <= vote <= 1),
{
    -1 <= vote && vote <= 1
}

} // verus!
