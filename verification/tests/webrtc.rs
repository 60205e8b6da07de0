use chromecast_sink::castv2::{CastMessage, NS_RECEIVER, NS_WEBRTC};
use chromecast_sink::mirroring::{AppStatus, LaunchReply, RequestIds};
use chromecast_sink::webrtc::{
    judge_launch, launch_mirroring, next_answer_poll, next_launch_poll, on_answer_message,
    on_launch_message, send_offer, LaunchVerdict, StreamOffer,
};
use serde_json::Value;

fn message(namespace: &str, payload: &str) -> CastMessage {
    CastMessage {
        source: "receiver-0".into(),
        destination: "sender-0".into(),
        namespace: namespace.into(),
        payload: payload.into(),
    }
}

#[test]
fn plain_launch_takes_any_status() {
    let mut ids = RequestIds::new();
    let (app_id, request) = launch_mirroring(&mut ids, true);
    assert_eq!(app_id, "85CDB22F");
    assert_eq!(request.source, "sender-0");
    assert_eq!(request.destination, "receiver-0");
    assert_eq!(request.namespace, NS_RECEIVER);
    assert_eq!(request.payload, r#"{"appId":"85CDB22F","requestId":1,"type":"LAUNCH"}"#);
    assert_eq!(launch_mirroring(&mut ids, false).0, "0F5096E8");

    let status = r#"{"type":"RECEIVER_STATUS","requestId":99,"status":{"applications":[{"appId":"85CDB22F","transportId":"t"}]}}"#;
    let ready = on_launch_message(&message(NS_RECEIVER, status), app_id);
    assert_eq!(ready.unwrap().unwrap(), "t");
    assert!(on_launch_message(&message(NS_WEBRTC, status), app_id).is_none());
    assert!(on_launch_message(&message(NS_RECEIVER, "nope"), app_id).is_none());
    assert!(on_launch_message(&message(NS_RECEIVER, status), "other").is_none());
}

#[test]
fn plain_launch_errors_say_what_is_wrong() {
    let no = r#"{ "type": "LAUNCH_ERROR" }"#;
    let error = on_launch_message(&message(NS_RECEIVER, no), "A").unwrap().unwrap_err();
    assert_eq!(error.message(), r#"Receiver rejected LAUNCH: { "type": "LAUNCH_ERROR" }"#);
    let bare = r#"{"type":"RECEIVER_STATUS","status":{"applications":[{"appId":"A"}]}}"#;
    let error = on_launch_message(&message(NS_RECEIVER, bare), "A").unwrap().unwrap_err();
    assert_eq!(error.message(), "no transportId");
    assert_eq!(next_launch_poll(0, 900_000_000).unwrap(), 500_000_000);
    let late = next_launch_poll(7, 7).unwrap_err();
    assert_eq!(late.message(), "Timeout launching mirroring app");
}

#[test]
fn plain_launch_replies_are_judged_by_app_alone() {
    let status = LaunchReply {
        request_id: None,
        kind: Some("RECEIVER_STATUS".into()),
        applications: vec![AppStatus {
            app_id: Some("A".into()),
            transport_id: Some("t".into()),
            session_id: None,
        }],
    };
    assert!(matches!(judge_launch(&status, "A"), LaunchVerdict::Ready(t) if t == "t"));
    assert!(matches!(judge_launch(&status, "B"), LaunchVerdict::Unrelated));
}

#[test]
fn plain_offer_names_the_sample_rate() {
    let offer = StreamOffer {
        bit_rate: -1,
        sample_rate: 44_100,
        ..StreamOffer::from_random(8, [0x10; 16], [0x20; 16])
    };
    let sent = send_offer(&mut RequestIds { next: 5 }, "app-1", &offer);
    assert_eq!(sent.source, "sender-0");
    assert_eq!(sent.destination, "app-1");
    assert_eq!(sent.namespace, NS_WEBRTC);
    let v: Value = serde_json::from_str(&sent.payload).unwrap();
    assert_eq!(v["seqNum"], 5);
    let expected: Value = serde_json::from_str(
        r#"{"index":0,"type":"audio_source","codecName":"opus","rtpProfile":"cast",
            "rtpPayloadType":127,"ssrc":9,"targetDelay":0,
            "aesKey":"10101010101010101010101010101010",
            "aesIvMask":"20202020202020202020202020202020",
            "timeBase":"1/44100","bitRate":-1,"sampleRate":44100,"channels":2}"#,
    )
    .unwrap();
    assert_eq!(v["offer"]["supportedStreams"][0], expected);
}

#[test]
fn plain_offer_has_standard_parameters() {
    let offer = StreamOffer::default();
    assert_eq!(offer.codec, "opus");
    assert_eq!(offer.sample_rate, 48_000);
    assert_eq!(offer.channels, 2);
    assert_eq!(offer.bit_rate, 128_000);
    assert_eq!(offer.rtp_payload_type, 127);
    assert_eq!(offer.target_delay_ms, 0);
    assert_eq!(offer.ssrc % 2, 1);
}

#[test]
fn plain_answers_keep_the_low_bits_of_the_port() {
    let ok = r#"{"type":"ANSWER","result":"ok","answer":{"udpPort":70000,"sendIndexes":[0,1]}}"#;
    let answer = on_answer_message(&message(NS_WEBRTC, ok)).unwrap().unwrap();
    assert_eq!(answer.udp_port, 4464);
    assert_eq!(answer.send_indexes, vec![0, 1]);
    assert!(on_answer_message(&message(NS_RECEIVER, ok)).is_none());
    assert!(on_answer_message(&message(NS_WEBRTC, r#"{"type":"STATUS"}"#)).is_none());
}

#[test]
fn plain_answer_errors_say_what_is_wrong() {
    let words = |payload: &str| {
        on_answer_message(&message(NS_WEBRTC, payload)).unwrap().unwrap_err().message()
    };
    assert_eq!(words("nope"), "decode webrtc payload");
    assert_eq!(
        words(r#"{"type":"ANSWER", "result":"error"}"#),
        r#"OFFER rejected: {"type":"ANSWER", "result":"error"}"#,
    );
    assert_eq!(words(r#"{"type":"ANSWER","result":"ok"}"#), "no `answer` field");
    assert_eq!(words(r#"{"type":"ANSWER","result":"ok","answer":{}}"#), "no udpPort");
    assert_eq!(next_answer_poll(6, 7).unwrap(), 1);
    let late = next_answer_poll(8, 7).unwrap_err();
    assert_eq!(late.message(), "Timeout waiting for ANSWER from Chromecast");
}
