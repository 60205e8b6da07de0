use chromecast_sink::cast_channel::{
    frame_message, Action, LoopEvent, OutboundEvent, Phase, ReadEvent, SessionEnd,
};
use chromecast_sink::castv2::{
    advance_loop, connect_transport, decode_cast_message, encode_cast_message, is_ping,
    start_loop, CastMessage, Dispatcher,
    NS_CONNECTION, NS_HEARTBEAT, NS_RECEIVER, NS_WEBRTC, PLATFORM, SENDER_LOCAL,
};

#[test]
fn castv2_encoding_matches_official_protobuf() {
    let ping = CastMessage {
        source: "sender-0".into(),
        destination: "receiver-0".into(),
        namespace: NS_HEARTBEAT.into(),
        payload: r#"{"type":"PING"}"#.into(),
    };
    assert_eq!(
        hex::encode(encode_cast_message(&ping)),
        "0800120873656e6465722d301a0a72656365697665722d30222775726e3a782d\
         636173743a636f6d2e676f6f676c652e636173742e74702e6865617274626561\
         742800320f7b2274797065223a2250494e47227d",
    );
    let offer = CastMessage {
        source: "sender-0".into(),
        destination: "173cb36a-a488-4fc3-963a-651334ad51c1".into(),
        namespace: NS_WEBRTC.into(),
        payload: r#"{"type":"OFFER","seqNum":1}"#.into(),
    };
    assert_eq!(
        hex::encode(encode_cast_message(&offer)),
        "0800120873656e6465722d301a2431373363623336612d613438382d34666333\
         2d393633612d363531333334616435316331222175726e3a782d636173743a63\
         6f6d2e676f6f676c652e636173742e7765627274632800321b7b227479706522\
         3a224f46464552222c227365714e756d223a317d",
    );
}

#[test]
fn castv2_roundtrip_cast_message() {
    let m = CastMessage {
        source: "sender-0".into(),
        destination: "receiver-0".into(),
        namespace: "urn:x-cast:foo".into(),
        payload: r#"{"type":"PING"}"#.into(),
    };
    let encoded = encode_cast_message(&m);
    let decoded = decode_cast_message(&encoded).unwrap();
    assert_eq!(decoded.source, m.source);
    assert_eq!(decoded.destination, m.destination);
    assert_eq!(decoded.namespace, m.namespace);
    assert_eq!(decoded.payload, m.payload);
}

fn message(namespace: &str, payload: &str) -> CastMessage {
    CastMessage {
        source: "receiver-0".into(),
        destination: "sender-0".into(),
        namespace: namespace.into(),
        payload: payload.into(),
    }
}

#[test]
fn pings_are_recognised_by_parsing() {
    assert!(is_ping(r#"{"type":"PING"}"#));
    assert!(is_ping(r#"{"type": "PING"}"#));
    assert!(!is_ping(r#"not json "type":"PING" at all"#));
    assert!(!is_ping(r#"{"x":"\"type\":\"PING\""}"#));
    assert!(!is_ping(""));
}

#[test]
fn ping_with_a_blank_is_answered() {
    let wire = frame_message(&message(NS_HEARTBEAT, r#"{"type": "PING"}"#));
    let (actions, end) = Dispatcher::new(0).on_read(ReadEvent::Data(wire));
    assert_eq!(end, None);
    assert_eq!(actions.len(), 1);
    match &actions[0] {
        Action::Send(pong) => {
            assert_eq!(pong.source, "sender-0");
            assert_eq!(pong.destination, "receiver-0");
            assert_eq!(pong.namespace, NS_HEARTBEAT);
            assert_eq!(pong.payload, r#"{"type":"PONG"}"#);
        }
        other => panic!("no answer: {other:?}"),
    }
}

#[test]
fn plain_session_ends_without_flushing() {
    assert_eq!(start_loop(true).phase, Phase::Over);
    let mut session = start_loop(false);
    advance_loop(&mut session, LoopEvent::Handled(None));
    advance_loop(&mut session, LoopEvent::Tried(OutboundEvent::Empty));
    assert_eq!(session.phase, Phase::Beat);
    advance_loop(&mut session, LoopEvent::Beaten { silent: false, stop: true });
    assert_eq!(session.phase, Phase::Over);
    let mut closed = start_loop(false);
    advance_loop(&mut closed, LoopEvent::Handled(Some(SessionEnd::PeerClosed)));
    assert_eq!(closed.phase, Phase::Over);
    let mut failed = start_loop(false);
    advance_loop(&mut failed, LoopEvent::Handled(None));
    advance_loop(&mut failed, LoopEvent::Tried(OutboundEvent::SendFailed));
    assert_eq!(failed.phase, Phase::Over);
}

#[test]
fn plain_dispatcher_answers_pings_and_forwards_the_rest() {
    let mut wire = frame_message(&message(NS_HEARTBEAT, r#"{"type":"PING"}"#));
    wire.extend(frame_message(&message(NS_RECEIVER, "{}")));
    wire.extend(frame_message(&message(NS_HEARTBEAT, r#"{"type":"PONG"}"#)));
    let mut d = Dispatcher::new(0);
    let (first, end) = d.on_read(ReadEvent::Data(wire[..10].to_vec()));
    assert!(first.is_empty());
    assert_eq!(end, None);
    let (actions, end) = d.on_read(ReadEvent::Data(wire[10..].to_vec()));
    assert_eq!(end, None);
    assert_eq!(actions.len(), 2);
    match &actions[0] {
        Action::Send(pong) => {
            assert_eq!(pong.source, SENDER_LOCAL);
            assert_eq!(pong.destination, "receiver-0");
            assert_eq!(pong.payload, r#"{"type":"PONG"}"#);
        }
        other => panic!("no answer: {other:?}"),
    }
    match &actions[1] {
        Action::Forward(msg) => assert_eq!(msg.payload, "{}"),
        other => panic!("not forwarded: {other:?}"),
    }
    assert!(d.acc.is_empty());
}

#[test]
fn plain_dispatcher_has_no_frame_limit() {
    let big = message(NS_RECEIVER, &"x".repeat(100_000));
    let mut d = Dispatcher::new(0);
    let (actions, end) = d.on_read(ReadEvent::Data(frame_message(&big)));
    assert_eq!(end, None);
    assert_eq!(actions.len(), 1);
}

#[test]
fn plain_dispatcher_ends_with_the_socket() {
    let mut d = Dispatcher::new(0);
    assert_eq!(d.on_read(ReadEvent::WouldBlock).1, None);
    assert_eq!(d.on_read(ReadEvent::TimedOut).1, None);
    assert_eq!(d.on_read(ReadEvent::Data(vec![])).1, Some(SessionEnd::PeerClosed));
    assert_eq!(d.on_read(ReadEvent::UnexpectedEof).1, Some(SessionEnd::ReadFailed));
    assert_eq!(d.on_read(ReadEvent::OtherError).1, Some(SessionEnd::ReadFailed));
}

#[test]
fn plain_dispatcher_pings_every_five_seconds() {
    let mut d = Dispatcher::new(100);
    assert!(d.heartbeat(5_099).is_none());
    let ping = d.heartbeat(5_100).unwrap();
    assert_eq!(ping.source, SENDER_LOCAL);
    assert_eq!(ping.destination, PLATFORM);
    d.pinged(5_100);
    assert!(d.heartbeat(5_101).is_none());
}

#[test]
fn plain_connect_has_no_sender_info() {
    let open = connect_transport("receiver-0");
    assert_eq!(open.source, "sender-0");
    assert_eq!(open.destination, "receiver-0");
    assert_eq!(open.namespace, NS_CONNECTION);
    assert_eq!(open.payload, r#"{"type":"CONNECT"}"#);
}
