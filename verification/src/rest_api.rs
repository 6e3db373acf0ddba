//! What the REST client sends: endpoint URLs and the authentication headers.

use vstd::prelude::*;

use crate::text::decimal;
use crate::utils::{signature, spec_signature};

verus! {

/// The base URL of the exchange's REST API.
pub open spec fn api_endpoint() -> Seq<char> {
    "https://ftx.com/api"@
}

/// The URL of an API endpoint (`endpoint` starts with '/').
pub fn url(endpoint: &str) -> (u: String)
    ensures
        u@ == api_endpoint() + endpoint@,
{
    let mut u = "https://ftx.com/api".to_owned();
    u.append(endpoint);
    u
}

/// The URL of a market's description.
pub fn market_url(market: &str) -> (u: String)
    ensures
        u@ == api_endpoint() + "/markets/"@ + market@,
{
    let mut u = url("/markets/");
    u.append(market);
    u
}

/// The URL of the last `limit` candles of a market at `resolution` seconds.
pub fn candles_url(market: &str, resolution: &str, limit: &str) -> (u: String)
    ensures
        u@ == api_endpoint() + "/markets/"@ + market@ + "/candles?resolution="@ + resolution@
            + "&limit="@ + limit@,
{
    let mut u = market_url(market);
    u.append("/candles?resolution=");
    u.append(resolution);
    u.append("&limit=");
    u.append(limit);
    u
}

/// The endpoint of one order.
pub fn order_endpoint(order_id: &str) -> (e: String)
    ensures
        e@ == "/orders/"@ + order_id@,
{
    let mut e = "/orders/".to_owned();
    e.append(order_id);
    e
}

/// The endpoint that modifies one order.
pub fn modify_order_endpoint(order_id: &str) -> (e: String)
    ensures
        e@ == "/orders/"@ + order_id@ + "/modify"@,
{
    let mut e = order_endpoint(order_id);
    e.append("/modify");
    e
}

/// The values of the FTX-KEY, FTX-SIGN and FTX-TS headers.
#[derive(Debug, PartialEq, Eq)]
pub struct AuthHeaders {
    pub key: String,
    pub sign: String,
    pub ts: String,
}

/// The authentication headers of a REST request to `endpoint` with `method`,
/// signed at the current time; `Err` when the clock reads before the Unix
/// epoch.
pub fn auth_header(api_key: &str, api_secret: &str, endpoint: &str, method: &str) -> (r: Result<
    AuthHeaders,
    (),
>)
    ensures
        r matches Ok(h) ==> h.key@ == api_key@ && (exists|t: u128| #[trigger] decimal(t as nat) == h.ts@)
            && h.sign@ == spec_signature(api_secret@, h.ts@, endpoint@, method@, "rest"@),
{
    match signature(api_secret, endpoint, method, "rest") {
        Ok((sign, ts)) => Ok(AuthHeaders { key: api_key.to_owned(), sign, ts }),
        Err(_) => Err(()),
    }
}

} // verus!
