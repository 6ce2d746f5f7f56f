//! Keepalive: a message with an empty body.
use vstd::prelude::*;
use crate::header::{header_bytes, make_bgp_header, BGP_TYPE_KEEPALIVE};

verus! {

#[derive(Debug, Clone, Copy, PartialEq, Eq, Structural)]
pub struct BGPKeepalive {}

impl BGPKeepalive {
    /// A Keepalive carries nothing: any body decodes to it.
    pub fn decode(_buf: &[u8]) -> (r: BGPKeepalive)
        ensures
            r == (BGPKeepalive {}),
    {
        BGPKeepalive {}
    }

    /// The whole message: a header of 19 bytes and no body.
    pub fn encode(&self) -> (r: Vec<u8>)
        ensures
            r@ == header_bytes(19, 4),
    {
        make_bgp_header(0, BGP_TYPE_KEEPALIVE)
    }
}

} // verus!
