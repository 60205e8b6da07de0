use std::sync::mpsc::{self, Receiver, RecvTimeoutError};
use std::time::{Duration, Instant};

use chromecast_sink::cast_channel::{
    CastMessage, NS_CONNECTION, NS_RECEIVER, NS_WEBRTC, PLATFORM_RECEIVER_ID,
};
use chromecast_sink::json::unsigned_at;
use chromecast_sink::mirroring::{
    judge_answer, judge_launch, launch_mirroring, listen, next_answer_poll, on_answer_received,
    parse_answer, read_answer_reply, read_launch_reply, send_offer, signed, ssrc_from, AnswerBody,
    AnswerFault, AnswerReply, AppStatus, Heard, LaunchError, LaunchReply, LaunchVerdict, Launching,
    MirroringSession, OfferError, Received, RequestIds, StreamMode, StreamOffer,
};
use serde_json::Value;

fn cast_msg(namespace: &str, payload: &str) -> CastMessage {
    CastMessage {
        source: PLATFORM_RECEIVER_ID.into(),
        destination: "sender-0".into(),
        namespace: namespace.into(),
        payload: payload.into(),
    }
}

fn json(text: &str) -> Value {
    serde_json::from_str(text).unwrap()
}

/// Looks at a channel as whoever waits for a launch does.
fn wait_for_json_message<T>(
    rx: &Receiver<CastMessage>,
    namespace: &str,
    timeout: Duration,
    mut predicate: impl FnMut(&Value) -> Option<T>,
) -> Result<T, LaunchError> {
    let started = Instant::now();
    let waiting = Launching { request_id: 0, mode: StreamMode::AudioOnly };
    loop {
        let elapsed = started.elapsed().as_nanos() as u64;
        let look = waiting.next_poll(elapsed, timeout.as_nanos() as u64)?;
        let received = match rx.recv_timeout(Duration::from_nanos(look)) {
            Ok(m) => Received::Message(m),
            Err(RecvTimeoutError::Timeout) => Received::Nothing,
            Err(RecvTimeoutError::Disconnected) => Received::Disconnected,
        };
        match listen(received, namespace) {
            Heard::Document(v) => {
                if let Some(result) = predicate(&v) {
                    return Ok(result);
                }
            }
            Heard::Nothing => {}
            Heard::Disconnected => return Err(LaunchError::ConnectionLost),
        }
    }
}

#[test]
fn disconnect_bails_instead_of_spinning_to_the_deadline() {
    let (tx, rx) = mpsc::channel::<CastMessage>();
    drop(tx);
    let started = Instant::now();
    let r = wait_for_json_message(&rx, NS_RECEIVER, Duration::from_secs(10), |_| Some(()));
    let elapsed = started.elapsed();
    assert!(r.is_err());
    assert!(elapsed < Duration::from_millis(200), "spun for {elapsed:?}");
    assert!(r.unwrap_err().message().contains("connection lost"));
}

#[test]
fn live_sender_still_waits_for_the_deadline() {
    let (_tx, rx) = mpsc::channel::<CastMessage>();
    let started = Instant::now();
    let r = wait_for_json_message::<()>(&rx, NS_RECEIVER, Duration::from_millis(300), |_| None);
    assert!(started.elapsed() >= Duration::from_millis(300));
    assert!(r.unwrap_err().message().contains("timed out"));
}

#[test]
fn other_namespaces_and_non_json_never_reach_the_predicate() {
    let (tx, rx) = mpsc::channel::<CastMessage>();
    tx.send(cast_msg(NS_WEBRTC, r#"{"type":"ANSWER"}"#)).unwrap();
    tx.send(cast_msg(NS_RECEIVER, "not json")).unwrap();
    tx.send(cast_msg(NS_RECEIVER, r#"{"requestId":7}"#)).unwrap();
    let got = wait_for_json_message(&rx, NS_RECEIVER, Duration::from_secs(5), |v| {
        Some(unsigned_at(v, "requestId"))
    });
    assert_eq!(got.unwrap(), Some(7));
}

#[test]
fn parse_answer_extracts_port_and_indexes() {
    let v = json(
        r#"{"result": "ok", "answer": {"udpPort": 44321, "sendIndexes": [0], "ssrcs": [1]}}"#,
    );
    let a = parse_answer(&v).unwrap();
    assert_eq!(a.udp_port, 44321);
    assert_eq!(a.send_indexes, vec![0]);
}

#[test]
fn parse_answer_rejects_errors_and_missing_port() {
    assert!(parse_answer(&json(r#"{"result": "error"}"#)).is_err());
    assert!(parse_answer(&json(r#"{"result": "ok"}"#)).is_err());
    assert!(parse_answer(&json(r#"{"result": "ok", "answer": {"sendIndexes": [0]}}"#)).is_err());
}

#[test]
fn parse_answer_rejects_port_above_u16() {
    let v = json(
        r#"{"result": "ok", "answer": {"udpPort": 70000, "sendIndexes": [0], "ssrcs": [1]}}"#,
    );
    let err = match parse_answer(&v) {
        Err(e) => e.message(),
        Ok(_) => panic!("expected error for udpPort 70000"),
    };
    assert!(err.contains("70000"), "error should name the offending value: {err}");
    assert!(err.contains("udpPort"), "error should mention the field: {err}");
}

#[test]
fn parse_answer_rejects_port_zero() {
    let v = json(r#"{"result": "ok", "answer": {"udpPort": 0, "sendIndexes": [0], "ssrcs": [1]}}"#);
    assert!(parse_answer(&v).is_err());
}

#[test]
fn parse_answer_accepts_max_port() {
    let v = json(
        r#"{"result": "ok", "answer": {"udpPort": 65535, "sendIndexes": [0], "ssrcs": [1]}}"#,
    );
    assert_eq!(parse_answer(&v).unwrap().udp_port, 65535);
}

#[test]
fn parse_answer_accepts_typical_port() {
    let v = json(
        r#"{"result": "ok", "answer": {"udpPort": 5004, "sendIndexes": [0], "ssrcs": [1]}}"#,
    );
    assert_eq!(parse_answer(&v).unwrap().udp_port, 5004);
}

#[test]
fn answer_errors_say_what_is_wrong() {
    let words = |text: &str| parse_answer(&json(text)).unwrap_err().message();
    assert_eq!(
        words(r#"{"result":"error","error":{"code":7,"x":1.5}}"#),
        r#"OFFER rejected: {"error":{"code":7,"x":1.5},"result":"error"}"#,
    );
    assert_eq!(words("[]"), "OFFER rejected: []");
    assert_eq!(words(r#"{"result":"ok"}"#), "no `answer` field");
    assert_eq!(words(r#"{"result":"ok","answer":{}}"#), "no udpPort");
    assert_eq!(words(r#"{"result":"ok","answer":{"udpPort":-5}}"#), "no udpPort");
    assert_eq!(
        words(r#"{"result":"ok","answer":{"udpPort":65536}}"#),
        "udpPort 65536 out of range (expected 1..=65535)",
    );
    assert_eq!(OfferError::ConnectionLost.message(), "Cast connection lost");
    assert_eq!(next_answer_poll(9, 9).unwrap_err().message(), "timed out waiting for a reply");
    assert_eq!(next_answer_poll(1, 10_000_000_000).unwrap(), 500_000_000);
    assert_eq!(next_answer_poll(8, 9).unwrap(), 1);
}

#[test]
fn send_indexes_that_are_no_whole_numbers_are_passed_over() {
    let v = json(
        r#"{"type":"ANSWER","result":"ok","answer":{"udpPort":9,"sendIndexes":[0,"1",-2,2.0,3]}}"#,
    );
    let reply = read_answer_reply(&v);
    assert_eq!(reply.kind.as_deref(), Some("ANSWER"));
    let answer = judge_answer(reply).unwrap();
    assert_eq!(answer.send_indexes, vec![0, 3]);
}

#[test]
fn answers_are_judged_field_by_field() {
    let reply = |result: Option<&str>, answer: Option<AnswerBody>| AnswerReply {
        kind: Some("ANSWER".into()),
        result: result.map(String::from),
        answer,
    };
    let body = |port| AnswerBody { udp_port: port, send_indexes: vec![4] };
    assert_eq!(judge_answer(reply(None, None)).unwrap_err(), AnswerFault::Rejected);
    assert_eq!(judge_answer(reply(Some("OK"), None)).unwrap_err(), AnswerFault::Rejected);
    assert_eq!(judge_answer(reply(Some("ok"), None)).unwrap_err(), AnswerFault::NoAnswer);
    assert_eq!(
        judge_answer(reply(Some("ok"), Some(body(None)))).unwrap_err(),
        AnswerFault::NoUdpPort
    );
    assert_eq!(
        judge_answer(reply(Some("ok"), Some(body(Some(0))))).unwrap_err(),
        AnswerFault::UdpPortOutOfRange(0)
    );
    let answer = judge_answer(reply(Some("ok"), Some(body(Some(1))))).unwrap();
    assert_eq!((answer.udp_port, answer.send_indexes), (1, vec![4]));
}

fn app(id: &str, transport: Option<&str>, session: Option<&str>) -> AppStatus {
    AppStatus {
        app_id: Some(id.into()),
        transport_id: transport.map(String::from),
        session_id: session.map(String::from),
    }
}

fn launch_reply(kind: &str, applications: Vec<AppStatus>) -> LaunchReply {
    LaunchReply { request_id: Some(7), kind: Some(kind.into()), applications }
}

#[test]
fn launch_replies_are_judged_by_request_and_app() {
    let status = launch_reply(
        "RECEIVER_STATUS",
        vec![app("X", None, None), app("85CDB22F", Some("t-1"), Some("s-1")), app("85CDB22F", Some("t-2"), Some("s-2"))],
    );
    match judge_launch(&status, 7, "85CDB22F") {
        LaunchVerdict::Ready(session) => {
            assert_eq!(session.transport_id, "t-1");
            assert_eq!(session.session_id, "s-1");
        }
        other => panic!("not ready: {other:?}"),
    }
    assert!(matches!(judge_launch(&status, 8, "85CDB22F"), LaunchVerdict::Unrelated));
    assert!(matches!(judge_launch(&status, 7, "0F5096E8"), LaunchVerdict::Unrelated));
    assert!(matches!(judge_launch(&status, 7, "X"), LaunchVerdict::NoTransportId));
    let half = launch_reply("RECEIVER_STATUS", vec![app("A", Some("t"), None)]);
    assert!(matches!(judge_launch(&half, 7, "A"), LaunchVerdict::NoSessionId));
    let error = launch_reply("LAUNCH_ERROR", vec![]);
    assert!(matches!(judge_launch(&error, 7, "A"), LaunchVerdict::Rejected));
    assert!(matches!(judge_launch(&error, 6, "A"), LaunchVerdict::Unrelated));
    let other = launch_reply("DEVICE_ADDED", vec![]);
    assert!(matches!(judge_launch(&other, 7, "A"), LaunchVerdict::Unrelated));
}

#[test]
fn launch_replies_are_read_from_documents() {
    let reply = read_launch_reply(&json(
        r#"{"requestId":3,"type":"RECEIVER_STATUS","status":{"applications":[
            {"appId":"A","transportId":"t","sessionId":5},{}]}}"#,
    ));
    assert_eq!(reply.request_id, Some(3));
    assert_eq!(reply.kind.as_deref(), Some("RECEIVER_STATUS"));
    assert_eq!(reply.applications.len(), 2);
    assert_eq!(reply.applications[0].app_id.as_deref(), Some("A"));
    assert_eq!(reply.applications[0].transport_id.as_deref(), Some("t"));
    assert_eq!(reply.applications[0].session_id, None);
    assert_eq!(reply.applications[1].app_id, None);
    let empty = read_launch_reply(&json(r#"{"status":{"applications":"none"}}"#));
    assert_eq!(empty.request_id, None);
    assert!(empty.applications.is_empty());
}

#[test]
fn launching_asks_and_waits_for_its_own_reply() {
    let mut ids = RequestIds::new();
    let (waiting, request) = launch_mirroring(&mut ids, StreamMode::AudioOnly, "sender-7");
    assert_eq!(request.source, "sender-7");
    assert_eq!(request.destination, "receiver-0");
    assert_eq!(request.namespace, NS_RECEIVER);
    assert_eq!(
        request.payload,
        r#"{"appId":"85CDB22F","language":"en-US","requestId":1,"supportedAppTypes":["WEB"],"type":"LAUNCH"}"#,
    );
    let status = |id: u32| {
        Received::Message(cast_msg(
            NS_RECEIVER,
            &format!(
                r#"{{"requestId":{id},"type":"RECEIVER_STATUS","status":{{"applications":[
                    {{"appId":"85CDB22F","transportId":"t","sessionId":"s"}}]}}}}"#
            ),
        ))
    };
    assert!(waiting.on_received(Received::Nothing).is_none());
    assert!(waiting.on_received(status(0)).is_none(), "a leftover session is not ours");
    let session = waiting.on_received(status(1)).unwrap().unwrap();
    assert_eq!(session.transport_id, "t");
    assert_eq!(session.session_id, "s");
    let error = waiting
        .on_received(Received::Message(cast_msg(
            NS_RECEIVER,
            r#"{ "type": "LAUNCH_ERROR", "requestId": 1, "reason": "NOT_FOUND" }"#,
        )))
        .unwrap()
        .unwrap_err();
    assert_eq!(
        error.message(),
        r#"Receiver rejected LAUNCH: {"reason":"NOT_FOUND","requestId":1,"type":"LAUNCH_ERROR"}"#,
    );
    let lost = waiting.on_received(Received::Disconnected).unwrap().unwrap_err();
    assert_eq!(lost.message(), "Cast connection lost");
}

#[test]
fn launch_errors_say_what_is_wrong() {
    assert_eq!(LaunchError::NoTransportId.message(), "no transportId");
    assert_eq!(LaunchError::NoSessionId.message(), "no sessionId");
    let waiting = Launching { request_id: 4, mode: StreamMode::AudioVideo };
    assert_eq!(waiting.next_poll(5, 5).unwrap_err().message(), "timed out waiting for a reply");
    let bare = r#"{"requestId":4,"type":"RECEIVER_STATUS","status":{"applications":[{"appId":"0F5096E8"}]}}"#;
    let error = waiting.on_received(Received::Message(cast_msg(NS_RECEIVER, bare)));
    assert!(matches!(error, Some(Err(LaunchError::NoTransportId))));
}

#[test]
fn offer_matches_openscreen_stream_description() {
    let mut ids = RequestIds { next: 12 };
    let offer = StreamOffer { ssrc: 4711, aes_key: [0xAB; 16], aes_iv_mask: [0x01; 16] };
    let message = send_offer(&mut ids, "sender-7", "app-1", &offer);
    assert_eq!(ids.next, 13);
    assert_eq!(message.source, "sender-7");
    assert_eq!(message.destination, "app-1");
    assert_eq!(message.namespace, NS_WEBRTC);
    let v = json(&message.payload);
    assert_eq!(v["type"], "OFFER");
    assert_eq!(v["seqNum"], 12);
    assert_eq!(v["offer"]["castMode"], "mirroring");
    let streams = v["offer"]["supportedStreams"].as_array().unwrap();
    assert_eq!(streams.len(), 1);
    assert_eq!(
        streams[0],
        json(
            r#"{"index":0,"type":"audio_source","codecName":"opus","codecParameter":"",
                "rtpProfile":"cast","rtpPayloadType":127,"ssrc":4711,"targetDelay":0,
                "aesKey":"abababababababababababababababab",
                "aesIvMask":"01010101010101010101010101010101",
                "timeBase":"1/48000","receiverRtcpEventLog":false,"bitRate":128000,"channels":2}"#
        ),
    );
}

#[test]
fn answers_are_awaited_on_the_webrtc_namespace() {
    let ok = r#"{"type":"ANSWER","result":"ok","answer":{"udpPort":5004,"sendIndexes":[0]}}"#;
    assert!(on_answer_received(Received::Nothing).is_none());
    assert!(on_answer_received(Received::Message(cast_msg(NS_RECEIVER, ok))).is_none());
    assert!(on_answer_received(Received::Message(cast_msg(NS_WEBRTC, "nope"))).is_none());
    assert!(
        on_answer_received(Received::Message(cast_msg(NS_WEBRTC, r#"{"type":"STATUS"}"#))).is_none()
    );
    let answer = on_answer_received(Received::Message(cast_msg(NS_WEBRTC, ok))).unwrap().unwrap();
    assert_eq!(answer.udp_port, 5004);
    let lost = on_answer_received(Received::Disconnected).unwrap().unwrap_err();
    assert_eq!(lost.message(), "Cast connection lost");
}

#[test]
fn teardown_stops_the_app_and_closes_both_connections() {
    let session = MirroringSession { transport_id: "t-9".into(), session_id: "s-9".into() };
    let mut ids = RequestIds { next: 40 };
    let messages = session.teardown(&mut ids, "sender-7");
    assert_eq!(messages.len(), 3);
    assert_eq!(messages[0].destination, "receiver-0");
    assert_eq!(messages[0].namespace, NS_RECEIVER);
    assert_eq!(messages[0].payload, r#"{"requestId":40,"sessionId":"s-9","type":"STOP"}"#);
    assert_eq!(messages[1].destination, "t-9");
    assert_eq!(messages[1].namespace, NS_CONNECTION);
    assert_eq!(messages[1].payload, r#"{"reasonCode":5,"type":"CLOSE"}"#);
    assert_eq!(messages[2].destination, "receiver-0");
    assert_eq!(messages[2].payload, r#"{"reasonCode":5,"type":"CLOSE"}"#);
    assert_eq!(ids.next, 41);
}

#[test]
fn request_ids_count_from_one() {
    let mut ids = RequestIds::new();
    assert_eq!(ids.new_request_id(), 1);
    assert_eq!(ids.new_request_id(), 2);
    let mut last = RequestIds { next: u64::MAX };
    assert_eq!(last.new_request_id(), u64::MAX);
    assert_eq!(last.new_request_id(), 0);
}

#[test]
fn sequence_numbers_keep_the_bits() {
    assert_eq!(signed(12), 12);
    assert_eq!(signed(u64::MAX), -1);
    assert_eq!(signed(1 << 63), i64::MIN);
    let offer = StreamOffer::from_random(2, [0; 16], [0; 16]);
    let message = send_offer(&mut RequestIds { next: u64::MAX }, "s", "t", &offer);
    assert_eq!(json(&message.payload)["seqNum"], -1);
}

#[test]
fn ssrcs_are_odd_and_positive() {
    assert_eq!(ssrc_from(0), 1);
    assert_eq!(ssrc_from(0xFFFF_FFFF), 0x7FFF_FFFF);
    assert_eq!(ssrc_from(0x8000_0004), 5);
    let offer = StreamOffer::default();
    assert_eq!(offer.ssrc % 2, 1);
    assert!(offer.ssrc < 0x8000_0000);
    let other = StreamOffer::default();
    assert_ne!(offer.aes_key, other.aes_key, "secrets are fresh");
    assert_ne!(offer.aes_key, [0; 16]);
    assert_ne!(offer.aes_key, offer.aes_iv_mask);
}

#[test]
fn modes_name_their_apps() {
    assert_eq!(StreamMode::AudioOnly.app_id(), "85CDB22F");
    assert_eq!(StreamMode::AudioVideo.app_id(), "0F5096E8");
}

#[test]
fn different_secrets_are_written_differently() {
    let payload = |key: [u8; 16]| {
        send_offer(&mut RequestIds::new(), "s", "t", &StreamOffer::from_random(1, key, [0; 16])).payload
    };
    let mut key = [0u8; 16];
    let first = payload(key);
    key[15] = 0x10;
    let second = payload(key);
    assert!(second.contains("00000000000000000000000000000010"));
    assert_ne!(first, second);
}
