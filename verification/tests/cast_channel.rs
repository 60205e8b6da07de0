use chromecast_sink::cast_channel::{
    build_close_payload, build_connect_payload, close_transport, connect_transport,
    decode_cast_message, draw_sender_id, encode_cast_message, frame_message, json_message,
    payload_type_is,
    sender_id, take_frame, Action, CastMessage, DecodeError, Dispatcher, FrameError, LoopEvent,
    OutboundEvent, Phase, ReadEvent, SessionEnd, SessionLoop, MAX_BODY_SIZE, NS_CONNECTION,
    NS_HEARTBEAT, NS_RECEIVER, NS_WEBRTC, PLATFORM_RECEIVER_ID,
};
use chromecast_sink::protobuf::{read_varint, write_varint, VarintError};

fn sample() -> CastMessage {
    CastMessage {
        source: "sender-0".into(),
        destination: "receiver-0".into(),
        namespace: NS_HEARTBEAT.into(),
        payload: r#"{"type":"PING"}"#.into(),
    }
}

fn status() -> CastMessage {
    CastMessage {
        source: "receiver-0".into(),
        destination: "sender-7".into(),
        namespace: NS_RECEIVER.into(),
        payload: r#"{"type":"RECEIVER_STATUS"}"#.into(),
    }
}

/// The expected bytes are what protoc's encoder gives for `cast_channel.proto`.
#[test]
fn cast_channel_encoding_matches_official_protobuf() {
    let ping = CastMessage {
        source: "sender-0".into(),
        destination: "receiver-0".into(),
        namespace: NS_HEARTBEAT.into(),
        payload: r#"{"type":"PING"}"#.into(),
    };
    assert_eq!(
        hex::encode(encode_cast_message(&ping)),
        "0800120873656e6465722d301a0a72656365697665722d30222775726e3a782d\
         636173743a636f6d2e676f6f676c652e636173742e74702e6865617274626561\
         742800320f7b2274797065223a2250494e47227d",
    );
    let offer = CastMessage {
        source: "sender-0".into(),
        destination: "173cb36a-a488-4fc3-963a-651334ad51c1".into(),
        namespace: NS_WEBRTC.into(),
        payload: r#"{"type":"OFFER","seqNum":1}"#.into(),
    };
    assert_eq!(
        hex::encode(encode_cast_message(&offer)),
        "0800120873656e6465722d301a2431373363623336612d613438382d34666333\
         2d393633612d363531333334616435316331222175726e3a782d636173743a63\
         6f6d2e676f6f676c652e636173742e7765627274632800321b7b227479706522\
         3a224f46464552222c227365714e756d223a317d",
    );
}

#[test]
fn cast_channel_roundtrip_cast_message() {
    let m = CastMessage {
        source: "sender-0".into(),
        destination: "receiver-0".into(),
        namespace: "urn:x-cast:foo".into(),
        payload: r#"{"type":"PING"}"#.into(),
    };
    let encoded = encode_cast_message(&m);
    let decoded = decode_cast_message(&encoded).unwrap();
    assert_eq!(decoded.source, m.source);
    assert_eq!(decoded.destination, m.destination);
    assert_eq!(decoded.namespace, m.namespace);
    assert_eq!(decoded.payload, m.payload);
}

#[test]
fn decode_rejects_oversized_length_delimited_field() {
    for len in [u64::MAX, u64::MAX - 1, 1 << 63, 1 << 62, u32::MAX as u64, 17] {
        let mut data = vec![0x12]; // tag 2 (source_id), wire type 2
        write_varint(&mut data, len);
        data.extend_from_slice(b"AAAAAAAAAAAAAAAA");
        assert!(decode_cast_message(&data).is_err(), "len={len}");
    }
}

#[test]
fn decode_rejects_malformed_varints() {
    assert!(decode_cast_message(&[0x80]).is_err()); // continuation with no successor
    assert!(decode_cast_message(&[0xFF; 16]).is_err()); // varint past 10 bytes
    assert!(decode_cast_message(&[0x08]).is_err()); // wire type 0, value missing
    assert!(decode_cast_message(&[0x09, 0, 0, 0, 0, 0, 0, 0, 0]).is_err()); // wire type 1
    assert!(decode_cast_message(&[0x0D, 0, 0, 0, 0]).is_err()); // wire type 5
}

#[test]
fn decode_never_panics_on_corrupt_input() {
    let full = encode_cast_message(&sample());
    for n in 0..full.len() {
        let _ = decode_cast_message(&full[..n]);
    }
    for i in 0..full.len() {
        for bit in 0..8 {
            let mut m = full.clone();
            m[i] ^= 1 << bit;
            let _ = decode_cast_message(&m);
        }
    }
}

#[test]
fn take_frame_rejects_oversized_declared_length() {
    for len in [u32::MAX, 300 * 1024 * 1024, MAX_BODY_SIZE as u32 + 1] {
        let mut acc = len.to_be_bytes().to_vec();
        assert!(take_frame(&mut acc).is_err(), "len={len}");
        assert_eq!(acc.len(), 4);
    }
}

#[test]
fn take_frame_accepts_max_body_size() {
    let body = vec![0u8; MAX_BODY_SIZE];
    let mut acc = (MAX_BODY_SIZE as u32).to_be_bytes().to_vec();
    acc.extend_from_slice(&body);
    assert_eq!(take_frame(&mut acc).unwrap(), Some(body));
    assert!(acc.is_empty());
}

#[test]
fn take_frame_waits_for_complete_frames() {
    let body = encode_cast_message(&sample());
    let mut one = (body.len() as u32).to_be_bytes().to_vec();
    one.extend_from_slice(&body);
    let mut wire = one.clone();
    wire.extend_from_slice(&one);

    let mut acc = Vec::new();
    let mut frames = 0;
    for b in &wire {
        acc.push(*b);
        while let Some(f) = take_frame(&mut acc).unwrap() {
            assert_eq!(f, body);
            frames += 1;
        }
    }
    assert_eq!(frames, 2);
    assert!(acc.is_empty());
}

#[test]
fn take_frame_gives_the_same_bodies_whatever_the_chunks() {
    let bodies: [&[u8]; 4] = [b"one", b"", b"three bytes more", b"4"];
    let mut wire = Vec::new();
    let mut ends = Vec::new();
    for body in bodies {
        wire.extend_from_slice(&(body.len() as u32).to_be_bytes());
        wire.extend_from_slice(body);
        ends.push(wire.len());
    }
    for size in 1..=wire.len() {
        let mut acc = Vec::new();
        let mut taken = Vec::new();
        let mut arrived = 0;
        for chunk in wire.chunks(size) {
            acc.extend_from_slice(chunk);
            arrived += chunk.len();
            while let Some(body) = take_frame(&mut acc).unwrap() {
                taken.push(body);
            }
            let whole = ends.iter().filter(|end| **end <= arrived).count();
            assert_eq!(taken, bodies[..whole].to_vec(), "after {arrived} bytes");
        }
        assert_eq!(taken.len(), 4);
        assert!(acc.is_empty());
    }
}

#[test]
fn second_message_is_laid_over_the_first() {
    let mut data = encode_cast_message(&status());
    data.extend_from_slice(&[0x32, 2, b'{', b'}', 0x12, 0]);
    let decoded = decode_cast_message(&data).unwrap();
    assert_eq!(decoded.source, "", "set to nothing");
    assert_eq!(decoded.destination, "sender-7");
    assert_eq!(decoded.namespace, NS_RECEIVER);
    assert_eq!(decoded.payload, "{}");

    let mut both = encode_cast_message(&status());
    both.extend_from_slice(&encode_cast_message(&sample()));
    assert_eq!(decode_cast_message(&both).unwrap().payload, sample().payload);

    let mut broken = encode_cast_message(&status());
    broken.extend_from_slice(&[0x12, 5, b'a']);
    assert_eq!(decode_cast_message(&broken).unwrap_err(), DecodeError::FieldOverrun);
}

#[test]
fn any_document_can_be_a_payload() {
    let volume: serde_json::Value = serde_json::from_str(r#"{"level":0.25}"#).unwrap();
    let message = json_message("a", "b", "c", &volume);
    assert_eq!(message.source, "a");
    assert_eq!(message.destination, "b");
    assert_eq!(message.namespace, "c");
    assert_eq!(message.payload, r#"{"level":0.25}"#);
}

#[test]
fn decode_errors_say_what_is_wrong() {
    let overrun = decode_cast_message(&[0x80]).unwrap_err();
    assert_eq!(overrun, DecodeError::VarintOverrun);
    assert_eq!(overrun.message(), "varint overruns buffer");
    let long = decode_cast_message(&[0xFF; 16]).unwrap_err();
    assert_eq!(long, DecodeError::VarintTooLong);
    assert_eq!(long.message(), "varint too long");
    let field = decode_cast_message(&[0x12, 5, b'a']).unwrap_err();
    assert_eq!(field, DecodeError::FieldOverrun);
    assert_eq!(field.message(), "length-delimited field overruns buffer");
    let wire = decode_cast_message(&[0x0D, 0, 0, 0, 0]).unwrap_err();
    assert_eq!(wire, DecodeError::UnsupportedWireType { wire: 5, tag: 1 });
    assert_eq!(wire.message(), "unsupported wire type 5 at tag 1");
}

#[test]
fn frame_errors_name_the_declared_length() {
    let mut acc = 70_000u32.to_be_bytes().to_vec();
    let error = take_frame(&mut acc).unwrap_err();
    assert_eq!(error, FrameError { declared: 70_000 });
    assert_eq!(error.message(), "frame declares 70000 bytes, over the 65536-byte maximum");
}

#[test]
fn text_fields_are_repaired_when_not_utf8() {
    let decoded = decode_cast_message(&[0x12, 3, b'a', 0xFF, b'b']).unwrap();
    assert_eq!(decoded.source, "a\u{FFFD}b");
}

#[test]
fn later_fields_replace_earlier_ones_and_unknown_ones_are_skipped() {
    let decoded = decode_cast_message(&[
        0x12, 1, b'a', 0x3A, 1, b'x', 0x08, 0x96, 0x01, 0x12, 1, b'b',
    ])
    .unwrap();
    assert_eq!(decoded.source, "b");
    assert_eq!(decoded.payload, "");
}

#[test]
fn varints_have_seven_bit_groups() {
    let mut buf = Vec::new();
    write_varint(&mut buf, 300);
    assert_eq!(buf, vec![0xAC, 0x02]);
    let mut pos = 0;
    assert_eq!(read_varint(&buf, &mut pos), Ok(300));
    assert_eq!(pos, 2);
    let mut pos = 2;
    assert_eq!(read_varint(&buf, &mut pos), Err(VarintError::Overrun));
    let mut max = Vec::new();
    write_varint(&mut max, u64::MAX);
    assert_eq!(max.len(), 10);
    let mut pos = 0;
    assert_eq!(read_varint(&max, &mut pos), Ok(u64::MAX));
}

#[test]
fn payload_type_needs_a_real_parse() {
    assert!(payload_type_is(r#"{"type":"PING"}"#, "PING"));
    assert!(payload_type_is(r#"{ "a": [1, 2.5], "type" : "PING" }"#, "PING"));
    assert!(!payload_type_is(r#"{"type":"PONG"}"#, "PING"));
    assert!(!payload_type_is(r#"{"type":7}"#, "PING"));
    assert!(!payload_type_is(r#"["type","PING"]"#, "PING"));
    assert!(!payload_type_is(r#"{"type":"PING""#, "PING"));
    assert!(!payload_type_is(r#"{"x":"\"type\":\"PING\""}"#, "PING"));
}

fn forwarded(action: &Action) -> &CastMessage {
    match action {
        Action::Forward(msg) => msg,
        other => panic!("not forwarded: {other:?}"),
    }
}

#[test]
fn dispatcher_forwards_messages_unchanged_whatever_the_pieces() {
    let wire = frame_message(&status());
    for cut in 1..wire.len() {
        let mut d = Dispatcher::new("sender-7".into(), 0);
        let (actions, end) = d.on_read(ReadEvent::Data(wire[..cut].to_vec()), 1);
        assert!(actions.is_empty());
        assert_eq!(end, None);
        let (actions, end) = d.on_read(ReadEvent::Data(wire[cut..].to_vec()), 2);
        assert_eq!(end, None);
        assert_eq!(actions.len(), 1);
        let msg = forwarded(&actions[0]);
        assert_eq!(msg.source, "receiver-0");
        assert_eq!(msg.destination, "sender-7");
        assert_eq!(msg.namespace, NS_RECEIVER);
        assert_eq!(msg.payload, r#"{"type":"RECEIVER_STATUS"}"#);
    }
}

#[test]
fn dispatcher_answers_pings_and_swallows_pongs() {
    let ping = CastMessage { source: "receiver-0".into(), ..sample() };
    let pong = CastMessage { payload: r#"{"type":"PONG"}"#.into(), ..ping.clone() };
    let mut wire = frame_message(&ping);
    wire.extend(frame_message(&pong));
    let mut d = Dispatcher::new("sender-7".into(), 0);
    let (actions, end) = d.on_read(ReadEvent::Data(wire), 1);
    assert_eq!(end, None);
    assert_eq!(actions.len(), 1);
    match &actions[0] {
        Action::Send(msg) => {
            assert_eq!(msg.source, "sender-7");
            assert_eq!(msg.destination, "receiver-0");
            assert_eq!(msg.namespace, NS_HEARTBEAT);
            assert_eq!(msg.payload, r#"{"type":"PONG"}"#);
        }
        other => panic!("no answer: {other:?}"),
    }
}

#[test]
fn dispatcher_reports_undecodable_frames_and_goes_on() {
    let mut wire = vec![0, 0, 0, 1, 0x80];
    wire.extend(frame_message(&status()));
    let mut d = Dispatcher::new("sender-7".into(), 0);
    let (actions, end) = d.on_read(ReadEvent::Data(wire), 1);
    assert_eq!(end, None);
    assert_eq!(actions.len(), 2);
    assert!(matches!(actions[0], Action::Discard(DecodeError::VarintOverrun)));
    assert_eq!(forwarded(&actions[1]).namespace, NS_RECEIVER);
}

#[test]
fn dispatcher_ends_the_session_when_it_must() {
    let mut d = Dispatcher::new("s".into(), 0);
    assert_eq!(d.on_read(ReadEvent::WouldBlock, 1).1, None);
    assert_eq!(d.on_read(ReadEvent::TimedOut, 1).1, None);
    assert_eq!(d.on_read(ReadEvent::Data(vec![]), 1).1, Some(SessionEnd::PeerClosed));
    assert_eq!(d.on_read(ReadEvent::UnexpectedEof, 1).1, Some(SessionEnd::PeerClosed));
    assert_eq!(d.on_read(ReadEvent::OtherError, 1).1, Some(SessionEnd::ReadFailed));
    let mut wire = frame_message(&status());
    wire.extend([0xFF, 0xFF, 0xFF, 0xFF]);
    let (actions, end) = d.on_read(ReadEvent::Data(wire), 1);
    assert_eq!(actions.len(), 1);
    assert_eq!(end, Some(SessionEnd::FramingLost(FrameError { declared: u32::MAX })));
    let (actions, end) = d.on_read(ReadEvent::Data(frame_message(&status())), 2);
    assert!(actions.is_empty());
    assert_eq!(end, Some(SessionEnd::FramingLost(FrameError { declared: u32::MAX })));
}

#[test]
fn heartbeat_is_due_every_five_seconds() {
    let mut d = Dispatcher::new("sender-7".into(), 1_000);
    assert!(d.heartbeat(5_999).is_none());
    let ping = d.heartbeat(6_000).unwrap();
    assert_eq!(ping.source, "sender-7");
    assert_eq!(ping.destination, PLATFORM_RECEIVER_ID);
    assert_eq!(ping.namespace, NS_HEARTBEAT);
    assert_eq!(ping.payload, r#"{"type":"PING"}"#);
    d.pinged(6_000);
    assert!(d.heartbeat(10_999).is_none());
    assert!(d.heartbeat(11_000).is_some());
}

#[test]
fn silence_of_ten_seconds_is_death() {
    let mut d = Dispatcher::new("s".into(), 0);
    assert!(!d.is_silent(9_999));
    assert!(d.is_silent(10_000));
    d.on_read(ReadEvent::Data(vec![0]), 4_000);
    assert!(!d.is_silent(13_999));
    d.on_read(ReadEvent::TimedOut, 13_000);
    assert!(d.is_silent(14_000));
}

fn walk(session: &mut SessionLoop, events: &[LoopEvent]) -> Vec<Phase> {
    events
        .iter()
        .map(|e| {
            session.advance(*e);
            session.phase
        })
        .collect()
}

#[test]
fn session_goes_round_until_asked_to_stop() {
    let mut session = SessionLoop::new(false);
    assert_eq!(session.phase, Phase::Read);
    let phases = walk(
        &mut session,
        &[
            LoopEvent::Handled(None),
            LoopEvent::Tried(OutboundEvent::Sent),
            LoopEvent::Tried(OutboundEvent::Empty),
            LoopEvent::Beaten { silent: false, stop: false },
            LoopEvent::Beaten { silent: true, stop: true },
            LoopEvent::Handled(None),
            LoopEvent::Tried(OutboundEvent::Empty),
            LoopEvent::Beaten { silent: false, stop: true },
            LoopEvent::Tried(OutboundEvent::Sent),
            LoopEvent::Tried(OutboundEvent::Empty),
            LoopEvent::Handled(None),
        ],
    );
    assert_eq!(
        phases,
        vec![
            Phase::Send, Phase::Send, Phase::Beat, Phase::Read, Phase::Read, Phase::Send,
            Phase::Beat, Phase::Flush, Phase::Flush, Phase::Over, Phase::Over,
        ]
    );
    assert_eq!(SessionLoop::new(true).phase, Phase::Flush);
}

#[test]
fn nothing_is_done_after_a_failed_write() {
    let later = [
        LoopEvent::Beaten { silent: false, stop: false },
        LoopEvent::Handled(None),
        LoopEvent::Tried(OutboundEvent::Sent),
        LoopEvent::Tried(OutboundEvent::Empty),
        LoopEvent::HeartbeatFailed,
    ];
    for phase in [Phase::Read, Phase::Send, Phase::Beat, Phase::Flush] {
        for failure in [LoopEvent::HeartbeatFailed, LoopEvent::Tried(OutboundEvent::SendFailed)] {
            let mut session = SessionLoop { phase, ending: false };
            session.advance(failure);
            assert_eq!(session.phase, Phase::Over);
            assert_eq!(walk(&mut session, &later), vec![Phase::Over; 5]);
        }
    }
}

#[test]
fn other_ends_flush_the_queue() {
    let mut dropped = SessionLoop::new(false);
    let phases = walk(
        &mut dropped,
        &[
            LoopEvent::Handled(None),
            LoopEvent::Tried(OutboundEvent::Disconnected),
            LoopEvent::Beaten { silent: false, stop: false },
            LoopEvent::Tried(OutboundEvent::Disconnected),
        ],
    );
    assert_eq!(phases, vec![Phase::Send, Phase::Beat, Phase::Flush, Phase::Over]);
    let mut silent = SessionLoop { phase: Phase::Beat, ending: false };
    assert_eq!(walk(&mut silent, &[LoopEvent::Beaten { silent: true, stop: false }]), vec![Phase::Flush]);
    let mut closed = SessionLoop::new(false);
    let end = Some(SessionEnd::PeerClosed);
    assert_eq!(walk(&mut closed, &[LoopEvent::Handled(end)]), vec![Phase::Flush]);
}

#[test]
fn sender_ids_are_numbered() {
    assert_eq!(sender_id(0), "sender-0");
    assert_eq!(sender_id(123_456), "sender-123456");
    let drawn = draw_sender_id();
    let number: u32 = drawn.strip_prefix("sender-").unwrap().parse().unwrap();
    assert!(number < 1_000_000);
}

#[test]
fn connect_payload_matches_chromium() {
    assert_eq!(
        build_connect_payload("0.1.0").to_string(),
        concat_parts(&[
            r#"{"connType":0,"origin":{},"senderInfo":{"browserVersion":"0.1.0","#,
            r#""connectionType":1,"platform":6,"sdkType":2,"systemVersion":"Linux","#,
            r#""version":"0.1.0"},"type":"CONNECT","#,
            r#""userAgent":"chromecast-sink/0.1.0 (Linux; Rust)"}"#,
        ]),
    );
    assert_eq!(build_close_payload().to_string(), r#"{"reasonCode":5,"type":"CLOSE"}"#);
}

fn concat_parts(parts: &[&str]) -> String {
    parts.concat()
}

#[test]
fn transports_are_opened_and_closed_on_the_connection_namespace() {
    let open = connect_transport("sender-7", "app-1", "0.1.0");
    assert_eq!(open.source, "sender-7");
    assert_eq!(open.destination, "app-1");
    assert_eq!(open.namespace, NS_CONNECTION);
    assert!(payload_type_is(&open.payload, "CONNECT"));
    let close = close_transport("sender-7", "app-1");
    assert_eq!(close.destination, "app-1");
    assert_eq!(close.namespace, NS_CONNECTION);
    assert_eq!(close.payload, r#"{"reasonCode":5,"type":"CLOSE"}"#);
}
