//! A whole message: header plus the body of the kind the header names.
use vstd::prelude::*;
use crate::errors::BgpError;
use crate::header::{decode_header, header_bytes, parse_header, Header, MessageType, BGP_HEADER_SIZE};
use crate::open::lemma_open_round_trip;
use crate::update::{lemma_update_round_trip, update_wf};
use crate::wire::lemma_be16_bytes;
use crate::keepalive::BGPKeepalive;
use crate::notification::{parse_notification, BGPNotification};
use crate::open::{open_body_bytes, parse_open, BGPOpen};
use crate::update::{parse_update, update_body_bytes, update_encode_error, BGPUpdate};

verus! {

#[derive(Debug, PartialEq, Eq)]
pub enum BGPMessage {
    Open(BGPOpen),
    Update(BGPUpdate),
    Notification(BGPNotification),
    Keepalive(BGPKeepalive),
}

/// `r` is what decoding `body` as a message of type `t` gives.
pub open spec fn decodes_to(r: Result<BGPMessage, BgpError>, t: MessageType, body: Seq<u8>) -> bool {
    match t {
        MessageType::Open => match parse_open(body) {
            Ok(o) => r == Ok::<_, BgpError>(BGPMessage::Open(o)),
            Err(e) => r == Err::<BGPMessage, _>(e),
        },
        MessageType::Update => match parse_update(body) {
            Ok(u) => r matches Ok(BGPMessage::Update(x)) && x@ == u,
            Err(e) => r == Err::<BGPMessage, _>(e),
        },
        MessageType::Notification => match parse_notification(body) {
            Ok(n) => r matches Ok(BGPMessage::Notification(x)) && x@ == n,
            Err(e) => r == Err::<BGPMessage, _>(e),
        },
        MessageType::Keepalive => r == Ok::<_, BgpError>(BGPMessage::Keepalive(BGPKeepalive {})),
    }
}

/// The wire form of a message, or why it cannot be encoded.
pub open spec fn message_bytes(m: BGPMessage) -> Result<Seq<u8>, BgpError> {
    match m {
        BGPMessage::Open(o) => if o.opt_params_len == 0 {
            Ok(header_bytes(29, 1) + open_body_bytes(o))
        } else {
            Err(BgpError::Unimplemented)
        },
        BGPMessage::Update(u) => match update_encode_error(u@) {
            Some(e) => Err(e),
            None => Ok(
                header_bytes((19 + update_body_bytes(u@).len()) as u16, 2) + update_body_bytes(u@),
            ),
        },
        BGPMessage::Notification(_) => Err(BgpError::Unimplemented),
        BGPMessage::Keepalive(_) => Ok(header_bytes(19, 4)),
    }
}

/// The type that the header of a message names.
pub open spec fn type_of(m: BGPMessage) -> MessageType {
    match m {
        BGPMessage::Open(_) => MessageType::Open,
        BGPMessage::Update(_) => MessageType::Update,
        BGPMessage::Notification(_) => MessageType::Notification,
        BGPMessage::Keepalive(_) => MessageType::Keepalive,
    }
}

/// A message that encodes, and that decoding its encoding gives back.
pub open spec fn message_wf(m: BGPMessage) -> bool {
    match m {
        BGPMessage::Open(o) => o.opt_params_len == 0,
        BGPMessage::Update(u) => update_wf(u@),
        BGPMessage::Notification(_) => false,
        BGPMessage::Keepalive(_) => true,
    }
}

/// The header of an encoded message declares the message's own length and type,
/// and its body decodes to the message's own contents.
pub proof fn lemma_message_round_trip(m: BGPMessage)
    requires
        message_wf(m),
    ensures
        message_bytes(m) matches Ok(b) && parse_header(b) == Ok::<_, BgpError>(
            Header { length: b.len() as u16, msg_type: type_of(m) },
        ) && match m {
            BGPMessage::Open(o) => parse_open(b.subrange(19, b.len() as int)) == Ok::<_, BgpError>(o),
            BGPMessage::Update(u) => parse_update(b.subrange(19, b.len() as int)) == Ok::<_, BgpError>(u@),
            _ => true,
        },
{
    let (total, code, body) = match m {
        BGPMessage::Open(o) => {
            lemma_open_round_trip(o);
            (29u16, 1u8, crate::open::open_body_bytes(o))
        },
        BGPMessage::Update(u) => {
            lemma_update_round_trip(u@);
            crate::update::lemma_wf_encodes(u@);
            ((19 + update_body_bytes(u@).len()) as u16, 2u8, update_body_bytes(u@))
        },
        _ => (19u16, 4u8, Seq::<u8>::empty()),
    };
    lemma_be16_bytes(total);
    let b = header_bytes(total, code) + body;
    assert(b.subrange(19, b.len() as int) =~= body);
    if let BGPMessage::Keepalive(_) = m {
        assert(b =~= header_bytes(19, 4));
    }
    assert(b[16] == crate::wire::be16_bytes(total)[0]);
    assert(b[17] == crate::wire::be16_bytes(total)[1]);
}

impl BGPMessage {
    /// Decodes the message at the start of `buf`: its header, then exactly the
    /// body length that the header declares.
    pub fn decode(buf: &[u8]) -> (r: Result<BGPMessage, BgpError>)
        ensures
            match parse_header(buf@) {
                Err(e) => r == Err::<BGPMessage, _>(e),
                Ok(h) => if buf@.len() < h.length {
                    r == Err::<BGPMessage, _>(BgpError::Truncated)
                } else {
                    decodes_to(r, h.msg_type, buf@.subrange(19, h.length as int))
                },
            },
    {
        let header = match decode_header(buf) {
            Ok(h) => h,
            Err(e) => {
                return Err(e);
            },
        };
        let length = header.length as usize;
        if buf.len() < length {
            return Err(BgpError::Truncated);
        }
        let body = &buf[BGP_HEADER_SIZE..length];
        match header.msg_type {
            MessageType::Open => match BGPOpen::decode(body) {
                Ok(o) => Ok(BGPMessage::Open(o)),
                Err(e) => Err(e),
            },
            MessageType::Update => match BGPUpdate::decode(body) {
                Ok(u) => Ok(BGPMessage::Update(u)),
                Err(e) => Err(e),
            },
            MessageType::Notification => match BGPNotification::decode(body) {
                Ok(n) => Ok(BGPMessage::Notification(n)),
                Err(e) => Err(e),
            },
            MessageType::Keepalive => Ok(BGPMessage::Keepalive(BGPKeepalive::decode(body))),
        }
    }

    /// The whole message on the wire. Notifications cannot be encoded.
    pub fn encode(self) -> (r: Result<Vec<u8>, BgpError>)
        ensures
            r matches Ok(b) ==> message_bytes(self) == Ok::<_, BgpError>(b@),
            r matches Err(e) ==> message_bytes(self) == Err::<Seq<u8>, _>(e),
    {
        match self {
            BGPMessage::Open(open) => open.encode(),
            BGPMessage::Keepalive(keepalive) => Ok(keepalive.encode()),
            BGPMessage::Update(update) => update.encode(),
            BGPMessage::Notification(_) => Err(BgpError::Unimplemented),
        }
    }
}

} // verus!
