//! Protocol layer: the JSON wire model, the framed message codec, and the
//! pure parts of connection negotiation.
use vstd::prelude::*;
use vstd::string::StringExecFns;

pub mod json;
pub mod responses;

verus! {

/// The URL of the one-time negotiation call for a hub at `base`.
pub fn negotiate_url(base: &str) -> (r: String)
    ensures
        r@ == base@ + "/negotiate?negotiateVersion=1"@,
{
    String::from_str(base).concat("/negotiate?negotiateVersion=1")
}

/// The WebSocket endpoint for a hub at `base` with connection token `token`.
pub fn socket_url(base: &str, token: &str) -> (r: String)
    ensures
        r@ == "ws://"@ + base@ + "?id="@ + token@,
{
    String::from_str("ws://").concat(base).concat("?id=").concat(token)
}

} // verus!
