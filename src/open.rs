//! Open: the session parameters a speaker proposes.
use vstd::prelude::*;
use crate::errors::BgpError;
use crate::header::{header_bytes, make_bgp_header, BGP_OPEN_SIZE, BGP_TYPE_OPEN};
use crate::wire::{be16, be16_bytes, be32, be32_bytes, push_u16, push_u32, read_u16, read_u32};

verus! {

/// An Open body. Optional parameters are not modelled: only their length is kept.
#[derive(Debug, Clone, Copy, PartialEq, Eq, Structural)]
pub struct BGPOpen {
    pub version: u8,
    pub sender_as: u16,
    pub hold_time: u16,
    pub bgp_id: u32,
    pub opt_params_len: u8,
}

/// Decodes an Open body: ten fixed bytes, then `opt_params_len` bytes of parameters.
pub open spec fn parse_open(b: Seq<u8>) -> Result<BGPOpen, BgpError> {
    if b.len() < 10 || b.len() < 10 + b[9] {
        Err(BgpError::Truncated)
    } else {
        Ok(BGPOpen {
            version: b[0],
            sender_as: be16(b[1], b[2]) as u16,
            hold_time: be16(b[3], b[4]) as u16,
            bgp_id: be32(b[5], b[6], b[7], b[8]) as u32,
            opt_params_len: b[9],
        })
    }
}

/// The ten fixed bytes of an Open body.
pub open spec fn open_body_bytes(o: BGPOpen) -> Seq<u8> {
    seq![o.version] + be16_bytes(o.sender_as) + be16_bytes(o.hold_time) + be32_bytes(o.bgp_id)
        + seq![o.opt_params_len]
}

impl BGPOpen {
    /// Decodes an Open body.
    pub fn decode(buf: &[u8]) -> (r: Result<BGPOpen, BgpError>)
        ensures
            r == parse_open(buf@),
    {
        if buf.len() < BGP_OPEN_SIZE || buf.len() - BGP_OPEN_SIZE < buf[9] as usize {
            return Err(BgpError::Truncated);
        }
        Ok(BGPOpen {
            version: buf[0],
            sender_as: read_u16(buf, 1),
            hold_time: read_u16(buf, 3),
            bgp_id: read_u32(buf, 5),
            opt_params_len: buf[9],
        })
    }

    /// The whole message, header included. Optional parameters cannot be encoded.
    pub fn encode(&self) -> (r: Result<Vec<u8>, BgpError>)
        ensures
            self.opt_params_len == 0 <==> r is Ok,
            r matches Ok(b) ==> b@ == header_bytes(29, 1) + open_body_bytes(*self),
            r matches Err(e) ==> e == BgpError::Unimplemented,
    {
        if self.opt_params_len != 0 {
            return Err(BgpError::Unimplemented);
        }
        let mut buf = make_bgp_header(BGP_OPEN_SIZE as u16, BGP_TYPE_OPEN);
        buf.push(self.version);
        push_u16(&mut buf, self.sender_as);
        push_u16(&mut buf, self.hold_time);
        push_u32(&mut buf, self.bgp_id);
        buf.push(self.opt_params_len);
        assert(buf@ =~= header_bytes(29, 1) + open_body_bytes(*self));
        Ok(buf)
    }
}

/// Decoding the body of an encoded Open gives back the Open.
pub proof fn lemma_open_round_trip(o: BGPOpen)
    requires
        o.opt_params_len == 0,
    ensures
        parse_open(open_body_bytes(o)) == Ok::<_, BgpError>(o),
{
    crate::wire::lemma_be16_bytes(o.sender_as);
    crate::wire::lemma_be16_bytes(o.hold_time);
    crate::wire::lemma_be32_bytes(o.bgp_id);
}

} // verus!
