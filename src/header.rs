//! The fixed 19-byte message header: marker, total length, message type.
use vstd::prelude::*;
use crate::errors::BgpError;
use crate::wire::{be16, be16_bytes, push_u16, read_u16};

verus! {

pub const BGP_MAX_MSG_SIZE: usize = 4096;
pub const BGP_HEADER_SIZE: usize = 19;
pub const BGP_OPEN_SIZE: usize = 10;

pub const BGP_TYPE_OPEN: u8 = 1;
pub const BGP_TYPE_UPDATE: u8 = 2;
pub const BGP_TYPE_NOTIFICATION: u8 = 3;
pub const BGP_TYPE_KEEPALIVE: u8 = 4;

/// The kind of message that a header announces.
#[derive(Debug, Clone, Copy, PartialEq, Eq, Structural)]
pub enum MessageType {
    Open,
    Update,
    Notification,
    Keepalive,
}

/// A decoded header: the total message length and the message type.
#[derive(Debug, Clone, Copy, PartialEq, Eq, Structural)]
pub struct Header {
    pub length: u16,
    pub msg_type: MessageType,
}

pub open spec fn type_of_code(c: u8) -> Option<MessageType> {
    if c == 1 {
        Some(MessageType::Open)
    } else if c == 2 {
        Some(MessageType::Update)
    } else if c == 3 {
        Some(MessageType::Notification)
    } else if c == 4 {
        Some(MessageType::Keepalive)
    } else {
        None
    }
}

pub open spec fn code_of_type(t: MessageType) -> u8 {
    match t {
        MessageType::Open => 1,
        MessageType::Update => 2,
        MessageType::Notification => 3,
        MessageType::Keepalive => 4,
    }
}

/// The length field of the header at the start of `b`.
pub open spec fn length_field(b: Seq<u8>) -> nat {
    be16(b[16], b[17])
}

/// Decodes the header at the start of `b`.
pub open spec fn parse_header(b: Seq<u8>) -> Result<Header, BgpError> {
    if b.len() < 19 {
        Err(BgpError::Truncated)
    } else if !(19 <= length_field(b) <= 4096) {
        Err(BgpError::BadMessageLength)
    } else {
        match type_of_code(b[18]) {
            None => Err(BgpError::UnknownMessageType),
            Some(t) => Ok(Header { length: length_field(b) as u16, msg_type: t }),
        }
    }
}

/// The header of a message of `total` bytes: an all-ones marker, the length, the type.
pub open spec fn header_bytes(total: u16, msg_type: u8) -> Seq<u8> {
    Seq::new(16, |_i: int| 0xffu8) + be16_bytes(total) + seq![msg_type]
}

/// The total length that the header at the start of a buffer declares.
pub fn message_length(message_buffer: &[u8]) -> (r: usize)
    requires
        message_buffer@.len() >= 19,
    ensures
        r == length_field(message_buffer@),
{
    read_u16(message_buffer, 16) as usize
}

/// Decodes and checks the header at the start of `buf`.
pub fn decode_header(buf: &[u8]) -> (r: Result<Header, BgpError>)
    ensures
        r == parse_header(buf@),
        r matches Ok(h) ==> h.length as nat == length_field(buf@)
            && code_of_type(h.msg_type) == buf@[18],
{
    if buf.len() < BGP_HEADER_SIZE {
        return Err(BgpError::Truncated);
    }
    let length = read_u16(buf, 16);
    if length < 19 || length > 4096 {
        return Err(BgpError::BadMessageLength);
    }
    let msg_type = match buf[18] {
        1 => MessageType::Open,
        2 => MessageType::Update,
        3 => MessageType::Notification,
        4 => MessageType::Keepalive,
        _ => {
            return Err(BgpError::UnknownMessageType);
        },
    };
    Ok(Header { length, msg_type })
}

/// The header of a message of type `msg_type` whose body is `body_len` bytes long;
/// refused when the whole message would exceed 4096 bytes.
pub fn encode_header(body_len: u16, msg_type: MessageType) -> (r: Result<Vec<u8>, BgpError>)
    ensures
        19 + body_len <= 4096 <==> r is Ok,
        r matches Ok(b) ==> b@ == header_bytes((19 + body_len) as u16, code_of_type(msg_type)),
        r matches Err(e) ==> e == BgpError::BadMessageLength,
{
    if body_len > 4096 - 19 {
        return Err(BgpError::BadMessageLength);
    }
    let code = match msg_type {
        MessageType::Open => BGP_TYPE_OPEN,
        MessageType::Update => BGP_TYPE_UPDATE,
        MessageType::Notification => BGP_TYPE_NOTIFICATION,
        MessageType::Keepalive => BGP_TYPE_KEEPALIVE,
    };
    Ok(make_bgp_header(body_len, code))
}

/// The header of a message whose body is `length` bytes long.
pub fn make_bgp_header(length: u16, msg_type: u8) -> (r: Vec<u8>)
    requires
        19 + length <= 4096,
    ensures
        r@ == header_bytes((19 + length) as u16, msg_type),
{
    let mut buf: Vec<u8> = Vec::new();
    let mut i: usize = 0;
    while i < 16
        invariant
            i <= 16,
            buf@ == Seq::new(i as nat, |_i: int| 0xffu8),
        decreases 16 - i,
    {
        buf.push(0xff);
        assert(buf@ =~= Seq::new((i + 1) as nat, |_i: int| 0xffu8));
        i = i + 1;
    }
    push_u16(&mut buf, 19 + length);
    buf.push(msg_type);
    assert(buf@ =~= header_bytes((19 + length) as u16, msg_type));
    buf
}

} // verus!
