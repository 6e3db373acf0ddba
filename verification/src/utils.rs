//! Clock reading and the HMAC-SHA256 request signature.

use hmac::{Hmac, Mac, NewMac};
use sha2::Sha256;
use std::time::{Duration, SystemTime, SystemTimeError, UNIX_EPOCH};
use vstd::prelude::*;

use crate::text::{decimal, decimal_string, hex_lower, lemma_hex_lower_len};

verus! {

#[verifier::external_type_specification]
#[verifier::external_body]
pub struct ExSystemTime(SystemTime);

#[verifier::external_type_specification]
#[verifier::external_body]
pub struct ExSystemTimeError(SystemTimeError);

/// Calls `SystemTime::now`. The wall clock is read; nothing is stated of
/// the value, which depends on the time of the call.
#[verifier::external_body]
fn system_time_now() -> SystemTime {
    SystemTime::now()
}

/// Calls `SystemTime::duration_since` with `UNIX_EPOCH`: the time elapsed
/// since 1970-01-01 UTC, or an error when the clock reads before that.
/// Nothing is stated of the duration, which rests on the clock reading.
#[verifier::external_body]
fn since_unix_epoch(t: &SystemTime) -> Result<Duration, SystemTimeError> {
    t.duration_since(UNIX_EPOCH)
}

/// Calls `Duration::as_secs`: the whole seconds of the duration. `Duration`
/// is opaque here, so the number is left unstated.
#[verifier::external_body]
fn duration_as_secs(d: &Duration) -> u64 {
    d.as_secs()
}

/// Calls `Duration::subsec_nanos`: the fractional part of the duration in
/// nanoseconds, which is always less than one billion.
#[verifier::external_body]
fn duration_subsec_nanos(d: &Duration) -> (nanos: u32)
    ensures
        nanos < 1_000_000_000,
{
    d.subsec_nanos()
}

/// The whole milliseconds of `secs` seconds and `nanos` nanoseconds.
pub open spec fn spec_millis(secs: nat, nanos: nat) -> nat {
    secs * 1000 + nanos / 1_000_000
}

/// The whole milliseconds of a duration of `secs` seconds and `nanos`
/// nanoseconds.
pub fn millis_from(secs: u64, nanos: u32) -> (ms: u128)
    ensures
        ms == spec_millis(secs as nat, nanos as nat),
{
    secs as u128 * 1000 + (nanos / 1_000_000) as u128
}

/// Milliseconds since the Unix epoch by the system clock; `None` when the
/// clock reads before the epoch. The value is the whole milliseconds of the
/// elapsed seconds and nanoseconds the clock gave.
pub fn current_ts() -> (r: Option<u128>)
    ensures
        r matches Some(ms) ==> exists|secs: u64, nanos: u32|
            nanos < 1_000_000_000 && ms == #[trigger] spec_millis(secs as nat, nanos as nat),
{
    let now = system_time_now();
    match since_unix_epoch(&now) {
        Ok(elapsed) => {
            let secs = duration_as_secs(&elapsed);
            let nanos = duration_subsec_nanos(&elapsed);
            Some(millis_from(secs, nanos))
        },
        Err(_) => None,
    }
}

/// What the exchange expects to be signed: for the REST API the timestamp,
/// the HTTP method, "/api" and the endpoint; for any other API (the
/// websocket login) the timestamp followed by "websocket_login".
pub open spec fn sign_payload(
    ts: Seq<char>,
    endpoint: Seq<char>,
    method: Seq<char>,
    api: Seq<char>,
) -> Seq<char> {
    if api == "rest"@ {
        ts + method + "/api"@ + endpoint
    } else {
        ts + "websocket_login"@
    }
}

/// What is signed, for every method alike: for the REST API the timestamp,
/// the method, "/api" and the endpoint, in that order; for any other API the
/// timestamp followed by "websocket_login".
pub proof fn lemma_sign_payload(ts: Seq<char>, endpoint: Seq<char>, method: Seq<char>, api: Seq<char>)
    ensures
        api == "rest"@ ==> sign_payload(ts, endpoint, method, api) == ts + method + "/api"@ + endpoint,
        api != "rest"@ ==> sign_payload(ts, endpoint, method, api) == ts + "websocket_login"@,
        sign_payload(ts, endpoint, method, "rest"@) == ts + method + "/api"@ + endpoint,
{
}

/// The HMAC-SHA256 tag of the UTF-8 bytes of `message` under the UTF-8
/// bytes of `key`.
pub uninterp spec fn hmac_sha256(key: Seq<char>, message: Seq<char>) -> Seq<u8>;

/// The signature sent to the exchange: the lowercase hex text of the
/// HMAC-SHA256 tag of the payload under the API secret.
pub open spec fn spec_signature(
    secret: Seq<char>,
    ts: Seq<char>,
    endpoint: Seq<char>,
    method: Seq<char>,
    api: Seq<char>,
) -> Seq<char> {
    hex_lower(hmac_sha256(secret, sign_payload(ts, endpoint, method, api)))
}

/// Computes HMAC-SHA256 with the `hmac` crate (`Hmac::<Sha256>`:
/// `new_from_slice`, `update`, `finalize`). The tag is `hmac_sha256` of the
/// two texts and, SHA-256 giving 32-byte digests, is 32 bytes long. A key of
/// any length is accepted by `new_from_slice`.
#[verifier::external_body]
pub(crate) fn hmac_sha256_digest(key: &str, message: &str) -> (tag: Vec<u8>)
    ensures
        tag@ == hmac_sha256(key@, message@),
        tag@.len() == 32,
{
    let mut mac = Hmac::<Sha256>::new_from_slice(key.as_bytes()).expect("HMAC keys of any length");
    mac.update(message.as_bytes());
    mac.finalize().into_bytes().to_vec()
}

/// Calls `hex::encode`: each byte becomes two lowercase hex digits, high
/// nibble first.
#[verifier::external_body]
pub(crate) fn hex_encode(data: &[u8]) -> (text: String)
    ensures
        text@ == hex_lower(data@),
{
    hex::encode(data)
}

/// Whether two texts are equal.
pub fn same_text(a: &str, b: &str) -> (r: bool)
    ensures
        r == (a@ == b@),
{
    let a_owned = a.to_owned();
    let b_owned = b.to_owned();
    a_owned == b_owned
}

/// The payload that is signed for a request made at timestamp text `ts`.
pub fn signing_message(ts: &str, endpoint: &str, method: &str, api: &str) -> (m: String)
    ensures
        m@ == sign_payload(ts@, endpoint@, method@, api@),
        api@ == "rest"@ ==> m@ == ts@ + method@ + "/api"@ + endpoint@,
        api@ != "rest"@ ==> m@ == ts@ + "websocket_login"@,
{
    let mut m = ts.to_owned();
    if same_text(api, "rest") {
        m.append(method);
        m.append("/api");
        m.append(endpoint);
    } else {
        m.append("websocket_login");
    }
    m
}

/// The signature of a request made at `ts` (milliseconds since the epoch),
/// with the decimal text of `ts` that goes along with it.
pub fn signature_at(api_secret: &str, ts: u128, endpoint: &str, method: &str, api: &str) -> (r: (
    String,
    String,
))
    ensures
        r.1@ == decimal(ts as nat),
        r.0@ == spec_signature(api_secret@, decimal(ts as nat), endpoint@, method@, api@),
        r.0@.len() == 64,
{
    let ts_text = decimal_string(ts);
    let message = signing_message(ts_text.as_str(), endpoint, method, api);
    let tag = hmac_sha256_digest(api_secret, message.as_str());
    let sig = hex_encode(tag.as_slice());
    proof {
        lemma_hex_lower_len(tag@);
    }
    (sig, ts_text)
}

/// Signs a request at the current time: the signature and the decimal
/// timestamp text it was made with; `Err` when the clock reads before the
/// Unix epoch.
pub fn signature(api_secret: &str, endpoint: &str, method: &str, api: &str) -> (r: Result<
    (String, String),
    (),
>)
    ensures
        r matches Ok((sig, ts)) ==> (exists|t: u128| #[trigger] decimal(t as nat) == ts@)
            && sig@ == spec_signature(api_secret@, ts@, endpoint@, method@, api@) && sig@.len() == 64,
{
    match current_ts() {
        Some(ts) => Ok(signature_at(api_secret, ts, endpoint, method, api)),
        None => Err(()),
    }
}

} // verus!
