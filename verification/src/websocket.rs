//! Websocket subscription to several markets at once.

use vstd::prelude::*;

use crate::ws::{channel_request, default_market, is_request, ChannelRequest};

pub use crate::ws::{auth_msg, unsubscribe};

verus! {

/// One subscription to `channel` per market given, in order; a single one
/// for "BTC-PERP" when no market, or an empty list, is given.
pub fn subscribe(channel: &str, markets: Option<&Vec<&str>>) -> (r: Vec<ChannelRequest>)
    ensures
        match markets {
            Some(m) if m@.len() > 0 => r@.len() == m@.len() && forall|i: int|
                0 <= i < m@.len() ==> is_request(#[trigger] r@[i], "subscribe"@, channel@, m@[i]@),
            _ => r@.len() == 1 && is_request(r@[0], "subscribe"@, channel@, default_market()),
        },
{
    let mut msgs: Vec<ChannelRequest> = Vec::new();
    match markets {
        Some(m) if m.len() > 0 => {
            let n = m.len();
            let mut i: usize = 0;
            while i < n
                invariant
                    n == m@.len(),
                    i <= n,
                    msgs@.len() == i,
                    forall|k: int|
                        0 <= k < i ==> is_request(#[trigger] msgs@[k], "subscribe"@, channel@, m@[k]@),
                decreases n - i,
            {
                msgs.push(channel_request("subscribe", channel, m[i]));
                i = i + 1;
            }
        },
        _ => {
            msgs.push(channel_request("subscribe", channel, "BTC-PERP"));
        },
    }
    msgs
}

} // verus!
