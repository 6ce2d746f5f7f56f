use bgp::errors::BgpError;
use bgp::framer::{split_frames, Framer};
use bgp::header::{decode_header, make_bgp_header, message_length, Header, MessageType};
use bgp::keepalive::BGPKeepalive;
use bgp::message::BGPMessage;
use bgp::notification::BGPNotification;
use bgp::open::BGPOpen;
use bgp::path_attribute::{AttributeFlag, AttributeType, PathAttribute};
use bgp::prefix::Prefix;
use bgp::update::BGPUpdate;

fn keepalive_frame() -> Vec<u8> {
    let mut b = vec![0xff; 16];
    b.extend_from_slice(&[0, 19, 4]);
    b
}

fn sample_open() -> BGPOpen {
    BGPOpen { version: 4, sender_as: 65002, hold_time: 30, bgp_id: 1234567890, opt_params_len: 0 }
}

fn sample_update() -> BGPUpdate {
    BGPUpdate {
        withdrawn_routes: vec![Prefix { length: 16, prefix: [10, 1, 0, 0] }],
        network_layer_reachability_information: vec![Prefix { length: 32, prefix: [10, 10, 100, 200] }],
        path_attributes: vec![
            PathAttribute { type_code: AttributeType::Origin, value: vec![2], flags: vec![AttributeFlag::Transitive] },
            PathAttribute { type_code: AttributeType::ASPath, value: vec![], flags: vec![AttributeFlag::ExtendedLength, AttributeFlag::Transitive] },
            PathAttribute { type_code: AttributeType::NextHop, value: vec![192, 168, 10, 5], flags: vec![AttributeFlag::Transitive] },
            PathAttribute { type_code: AttributeType::LocalPref, value: vec![0, 0, 0, 100], flags: vec![AttributeFlag::Transitive] },
        ],
    }
}

#[test]
fn keepalive_header_decodes_to_keepalive() {
    let frame = keepalive_frame();
    assert_eq!(decode_header(&frame), Ok(Header { length: 19, msg_type: MessageType::Keepalive }));
    assert_eq!(message_length(&frame), 19);
    assert_eq!(BGPMessage::decode(&frame), Ok(BGPMessage::Keepalive(BGPKeepalive {})));
}

#[test]
fn keepalive_encodes_to_bare_header() {
    assert_eq!(BGPKeepalive {}.encode(), keepalive_frame());
    assert_eq!(BGPMessage::Keepalive(BGPKeepalive {}).encode(), Ok(keepalive_frame()));
}

#[test]
fn header_carries_total_length() {
    let h = make_bgp_header(10, 1);
    assert_eq!(h.len(), 19);
    assert_eq!(&h[0..16], &[0xff; 16]);
    assert_eq!(&h[16..19], &[0, 29, 1]);
}

#[test]
fn open_encodes_and_decodes() {
    let bytes = sample_open().encode().unwrap();
    assert_eq!(bytes.len(), 29);
    assert_eq!(&bytes[16..29], &[0, 29, 1, 4, 0xfd, 0xea, 0, 30, 0x49, 0x96, 0x02, 0xd2, 0]);
    assert_eq!(BGPMessage::decode(&bytes), Ok(BGPMessage::Open(sample_open())));
}

#[test]
fn open_with_optional_parameters_is_unimplemented() {
    let mut open = sample_open();
    open.opt_params_len = 2;
    assert_eq!(open.encode(), Err(BgpError::Unimplemented));
}

#[test]
fn short_open_body_is_truncated() {
    assert_eq!(BGPOpen::decode(&[4, 0, 1, 0, 30]), Err(BgpError::Truncated));
    assert_eq!(BGPOpen::decode(&[4, 0, 1, 0, 30, 0, 0, 0, 1, 3, 9]), Err(BgpError::Truncated));
}

#[test]
fn notification_decodes_and_cannot_be_encoded() {
    let n = BGPNotification::decode(&[6, 2, 9, 8]).unwrap();
    assert_eq!(n, BGPNotification { error_code: 6, error_subcode: 2, data: vec![9, 8] });
    assert_eq!(BGPNotification::decode(&[6]), Err(BgpError::Truncated));
    assert_eq!(BGPMessage::Notification(n).encode(), Err(BgpError::Unimplemented));
}

#[test]
fn update_round_trip() {
    let bytes = sample_update().encode().unwrap();
    assert_eq!(bytes[18], 2);
    assert_eq!(message_length(&bytes), bytes.len());
    assert_eq!(&bytes[19..24], &[0, 3, 16, 10, 1]);
    assert_eq!(BGPUpdate::decode(&bytes[19..]), Ok(sample_update()));
    assert_eq!(BGPMessage::decode(&bytes), Ok(BGPMessage::Update(sample_update())));
}

#[test]
fn empty_update_body() {
    let u = BGPUpdate { withdrawn_routes: vec![], path_attributes: vec![], network_layer_reachability_information: vec![] };
    let bytes = u.clone().encode().unwrap();
    assert_eq!(&bytes[16..], &[0, 23, 2, 0, 0, 0, 0]);
    assert_eq!(BGPUpdate::decode(&bytes[19..]), Ok(u));
}

#[test]
fn update_with_overlong_section_is_truncated() {
    assert_eq!(BGPUpdate::decode(&[0, 5, 8, 10]), Err(BgpError::Truncated));
    assert_eq!(BGPUpdate::decode(&[0, 0, 0, 4, 0x40, 1]), Err(BgpError::Truncated));
}

#[test]
fn update_too_large_for_a_message() {
    let value = vec![0u8; 5000];
    let u = BGPUpdate {
        withdrawn_routes: vec![],
        path_attributes: vec![PathAttribute { type_code: AttributeType::Unknown(99), value, flags: vec![AttributeFlag::ExtendedLength] }],
        network_layer_reachability_information: vec![],
    };
    assert_eq!(u.encode(), Err(BgpError::BadMessageLength));
}

#[test]
fn update_with_bad_prefix_is_refused() {
    let u = BGPUpdate {
        withdrawn_routes: vec![],
        path_attributes: vec![],
        network_layer_reachability_information: vec![Prefix { length: 40, prefix: [1, 2, 3, 4] }],
    };
    assert_eq!(u.encode(), Err(BgpError::InvalidPrefixLength));
}

#[test]
fn unknown_message_type() {
    let mut frame = keepalive_frame();
    frame[18] = 9;
    assert_eq!(BGPMessage::decode(&frame), Err(BgpError::UnknownMessageType));
}

#[test]
fn bad_header_length() {
    let mut frame = keepalive_frame();
    frame[17] = 18;
    assert_eq!(decode_header(&frame), Err(BgpError::BadMessageLength));
    assert_eq!(decode_header(&frame[..10]), Err(BgpError::Truncated));
}

#[test]
fn two_messages_in_one_buffer() {
    let mut buf = keepalive_frame();
    let open = sample_open().encode().unwrap();
    buf.extend_from_slice(&open);
    let (frames, used) = split_frames(&buf);
    assert_eq!(frames.len(), 2);
    assert_eq!(frames[0], keepalive_frame());
    assert_eq!(frames[1], open);
    assert_eq!(used, buf.len());
    assert_eq!(BGPMessage::decode(&frames[0]), Ok(BGPMessage::Keepalive(BGPKeepalive {})));
    assert_eq!(BGPMessage::decode(&frames[1]), Ok(BGPMessage::Open(sample_open())));
}

#[test]
fn partial_frame_is_kept_for_later() {
    let mut buf = vec![0xff; 16];
    buf.extend_from_slice(&[0, 25, 3, 6, 1, 0, 0]);
    assert_eq!(buf.len(), 23);
    let partial = &buf[..20];
    assert_eq!(BGPMessage::decode(partial), Err(BgpError::Truncated));
    let mut framer = Framer::new();
    let frames = framer.feed(partial);
    assert!(frames.is_empty());
    assert_eq!(framer.pending(), partial);
    let mut rest = buf[20..].to_vec();
    rest.extend_from_slice(&[7, 7]);
    let frames = framer.feed(&rest);
    assert_eq!(frames.len(), 1);
    assert_eq!(frames[0].len(), 25);
    assert!(framer.pending().is_empty());
    assert_eq!(
        BGPMessage::decode(&frames[0]),
        Ok(BGPMessage::Notification(BGPNotification { error_code: 6, error_subcode: 1, data: vec![0, 0, 7, 7] }))
    );
}

#[test]
fn byte_at_a_time_matches_all_at_once() {
    let mut stream = keepalive_frame();
    stream.extend_from_slice(&sample_open().encode().unwrap());
    stream.extend_from_slice(&sample_update().encode().unwrap());
    stream.extend_from_slice(&[0xff, 0xff, 0xff]);
    let mut whole = Framer::new();
    let all_at_once = whole.feed(&stream);
    let mut single = Framer::new();
    let mut one_by_one = Vec::new();
    for b in &stream {
        one_by_one.extend(single.feed(&[*b]));
    }
    assert_eq!(all_at_once.len(), 3);
    assert_eq!(one_by_one, all_at_once);
    assert_eq!(single.pending(), whole.pending());
    assert_eq!(whole.pending(), &[0xff, 0xff, 0xff]);
}

#[test]
fn encode_header_limits_message_size() {
    let h = bgp::header::encode_header(4077, MessageType::Update).unwrap();
    assert_eq!(&h[16..19], &[0x10, 0x00, 2]);
    assert_eq!(bgp::header::encode_header(4078, MessageType::Update), Err(BgpError::BadMessageLength));
    assert_eq!(bgp::header::encode_header(0, MessageType::Keepalive).unwrap(), keepalive_frame());
}
