//! Websocket requests: channel subscription and the authenticated login.

use vstd::prelude::*;

use crate::text::{decimal, parse_u64, parse_u64_text, lemma_parse_decimal_roundtrip};
use crate::utils::{signature, spec_signature};

verus! {

/// A request on one channel of one market (`op` is "subscribe" or
/// "unsubscribe").
#[derive(Debug, PartialEq, Eq)]
pub struct ChannelRequest {
    pub op: String,
    pub channel: String,
    pub market: String,
}

/// The credentials of a websocket login.
#[derive(Debug, PartialEq, Eq)]
pub struct LoginArgs {
    pub key: String,
    pub sign: String,
    pub time: u64,
}

/// A websocket login request (`op` is "login").
#[derive(Debug, PartialEq, Eq)]
pub struct LoginRequest {
    pub op: String,
    pub args: LoginArgs,
}

/// The market used when none is named.
pub open spec fn default_market() -> Seq<char> {
    "BTC-PERP"@
}

/// `r` asks for `op` on `channel` of `market`.
pub open spec fn is_request(r: ChannelRequest, op: Seq<char>, channel: Seq<char>, market: Seq<char>) -> bool {
    r.op@ == op && r.channel@ == channel && r.market@ == market
}

/// Builds a channel request.
pub fn channel_request(op: &str, channel: &str, market: &str) -> (r: ChannelRequest)
    ensures
        is_request(r, op@, channel@, market@),
{
    ChannelRequest { op: op.to_owned(), channel: channel.to_owned(), market: market.to_owned() }
}

/// Subscribes to `channel` of `market`, or of "BTC-PERP" when no market is
/// given.
pub fn subscribe(channel: &str, market: Option<&str>) -> (r: ChannelRequest)
    ensures
        is_request(
            r,
            "subscribe"@,
            channel@,
            match market {
                Some(m) => m@,
                None => default_market(),
            },
        ),
{
    let market = match market {
        Some(m) => m,
        None => "BTC-PERP",
    };
    channel_request("subscribe", channel, market)
}

/// Unsubscribes from `channel` of `market`.
pub fn unsubscribe(channel: &str, market: &str) -> (r: ChannelRequest)
    ensures
        is_request(r, "unsubscribe"@, channel@, market@),
{
    channel_request("unsubscribe", channel, market)
}

/// The login request for a signature made at timestamp text `ts`: `None`
/// exactly when `ts` does not read as a 64-bit number.
pub fn login_request(api_key: &str, sign: String, ts: &str) -> (r: Option<LoginRequest>)
    ensures
        match parse_u64(ts@) {
            Some(t) => r matches Some(m) && m.op@ == "login"@ && m.args.key@ == api_key@
                && m.args.sign@ == sign@ && m.args.time == t,
            None => r is None,
        },
{
    match parse_u64_text(ts) {
        Some(time) => Some(
            LoginRequest {
                op: "login".to_owned(),
                args: LoginArgs { key: api_key.to_owned(), sign, time },
            },
        ),
        None => None,
    }
}

/// The websocket login request signed at the current time. Its `time` is the
/// timestamp that was signed; `None` only if the clock reads before the Unix
/// epoch or its reading in milliseconds does not fit in 64 bits.
pub fn auth_msg(api_key: &str, api_secret: &str) -> (r: Option<LoginRequest>)
    ensures
        r matches Some(m) ==> m.op@ == "login"@ && m.args.key@ == api_key@ && m.args.sign@
            == spec_signature(api_secret@, decimal(m.args.time as nat), "ws"@, "ws"@, "ws"@),
{
    let signed = signature(api_secret, "ws", "ws", "ws");
    match signed {
        Ok((sign, ts)) => {
            let ghost t = choose|t: u128| #[trigger] decimal(t as nat) == ts@;
            proof {
                lemma_parse_decimal_roundtrip(t as nat);
            }
            login_request(api_key, sign, ts.as_str())
        },
        Err(_) => None,
    }
}

} // verus!
