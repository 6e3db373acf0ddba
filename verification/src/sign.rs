//! Signing with a caller-given timestamp and no "/api" prefix.

use vstd::prelude::*;

use crate::text::{decimal, decimal_string, hex_lower, lemma_hex_lower_len};
use crate::utils::{hex_encode, hmac_sha256, hmac_sha256_digest};

pub use crate::utils::current_ts;

verus! {

/// The payload signed here: the timestamp, the method and the endpoint.
pub open spec fn timed_payload(time: nat, endpoint: Seq<char>, method: Seq<char>) -> Seq<char> {
    decimal(time) + method + endpoint
}

/// The hex HMAC-SHA256 signature of `time`, `method` and `endpoint` under
/// the API secret. Always `Ok`.
pub fn signature(api_secret: &str, time: u128, endpoint: &str, method: &str) -> (r: Result<
    String,
    (),
>)
    ensures
        r matches Ok(sig) && sig@ == hex_lower(
            hmac_sha256(api_secret@, timed_payload(time as nat, endpoint@, method@)),
        ) && sig@.len() == 64,
{
    let mut message = decimal_string(time);
    message.append(method);
    message.append(endpoint);
    let tag = hmac_sha256_digest(api_secret, message.as_str());
    proof {
        lemma_hex_lower_len(tag@);
        assert(message@ =~= timed_payload(time as nat, endpoint@, method@));
    }
    Ok(hex_encode(tag.as_slice()))
}

} // verus!
