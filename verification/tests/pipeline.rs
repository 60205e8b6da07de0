use chromecast_sink::cast_channel::{CastMessage, NS_CONNECTION, NS_RECEIVER};
use chromecast_sink::cast_rtp::{CastRtpSender, Config};
use chromecast_sink::discovery::Device;
use chromecast_sink::mirroring::{Received, StreamAnswer, StreamMode, StreamOffer};
use chromecast_sink::opus_enc::{layout_for, Layout, UnsupportedChannels};
use chromecast_sink::orchestrator;
use chromecast_sink::pipeline::{
    accepts_audio, choose_device, device_line, mode_for, pick_device, refusal_message, rtp_config,
    session_end, EndReason, PickError,
};
use chromecast_sink::wait::next_poll;
use chromecast_sink::webrtc;

fn device(name: &str, model: Option<&str>) -> Device {
    Device {
        friendly_name: name.into(),
        model: model.map(String::from),
        host: "192.168.1.2".into(),
        is_audio_only: true,
    }
}

#[test]
fn only_device_is_picked() {
    assert_eq!(pick_device(vec![device("Den", None)]).unwrap().friendly_name, "Den");
    assert_eq!(choose_device(vec![device("Den", None)]).unwrap().friendly_name, "Den");
    match pick_device(vec![]).unwrap_err() {
        PickError::Ambiguous(list) => {
            assert!(list.is_empty());
            assert_eq!(PickError::Ambiguous(list).message(), "device selection required");
        }
        other => panic!("{other:?}"),
    }
    let none = choose_device(vec![]).unwrap_err();
    assert_eq!(
        orchestrator::pick_message(&none),
        "No Chromecast devices found.\nCheck that your device is powered on, on the same network, and\nthat multicast UDP 5353 is not blocked by a firewall."
    );
    assert!(none.message().starts_with("No Chromecast devices found.\nCheck that"));
    match choose_device(vec![device("A", None), device("B", Some("Nest"))]).unwrap_err() {
        PickError::Ambiguous(list) => {
            assert_eq!(device_line(&list[0]), "  - A");
            assert_eq!(device_line(&list[1]), "  - B (Nest)");
            assert_eq!(PickError::Ambiguous(list).message(), "device selection required");
        }
        other => panic!("{other:?}"),
    }
}

#[test]
fn speakers_get_the_audio_app() {
    assert_eq!(mode_for(&device("A", None)), StreamMode::AudioOnly);
    let video = Device { is_audio_only: false, ..device("A", None) };
    assert_eq!(mode_for(&video), StreamMode::AudioVideo);
}

fn answer(send_indexes: Vec<u64>) -> StreamAnswer {
    StreamAnswer { udp_port: 5004, send_indexes }
}

#[test]
fn audio_is_stream_zero() {
    assert!(accepts_audio(&answer(vec![1, 0])));
    assert!(!accepts_audio(&answer(vec![1, 2])));
    assert!(!accepts_audio(&answer(vec![])));
    assert_eq!(
        refusal_message(&answer(vec![1, 20, 3])),
        "Chromecast did not accept the audio stream (sendIndexes=[1, 20, 3])"
    );
    assert_eq!(
        refusal_message(&answer(vec![])),
        "Chromecast did not accept the audio stream (sendIndexes=[])"
    );
}

#[test]
fn stream_goes_where_the_answer_says() {
    let offer = StreamOffer { ssrc: 99, aes_key: [1; 16], aes_iv_mask: [2; 16] };
    let config = rtp_config(&device("A", None), &offer, &answer(vec![0]));
    assert_eq!(config.chromecast_host, "192.168.1.2");
    assert_eq!(config.udp_port, 5004);
    assert_eq!(config.ssrc, 99);
    assert_eq!(config.payload_type, 127);
    assert_eq!(config.aes_key, [1; 16]);
    assert_eq!(config.aes_iv_mask, [2; 16]);
}

#[test]
fn plain_stream_has_the_payload_type_of_its_offer() {
    let offer = webrtc::StreamOffer {
        rtp_payload_type: 96,
        ..webrtc::StreamOffer::from_random(4, [1; 16], [2; 16])
    };
    let config = orchestrator::rtp_config(&device("A", None), &offer, &answer(vec![0]));
    assert_eq!(config.payload_type, 96);
    assert_eq!(config.ssrc, 5);
    assert_eq!(config.udp_port, 5004);
    assert_eq!(config.aes_key, [1; 16]);
}

#[test]
fn session_ends_when_the_app_closes_it() {
    let close = |source: &str, namespace: &str, payload: &str| {
        let msg = CastMessage {
            source: source.into(),
            destination: "sender-7".into(),
            namespace: namespace.into(),
            payload: payload.into(),
        };
        session_end(&Received::Message(msg), "app-1")
    };
    let payload = r#"{"type":"CLOSE"}"#;
    let reason = close("app-1", NS_CONNECTION, payload);
    assert_eq!(reason, Some(EndReason::ClosedByReceiver));
    assert_eq!(reason.unwrap().message(), "Receiver closed the mirroring session");
    assert_eq!(close("receiver-0", NS_CONNECTION, payload), None);
    assert_eq!(close("app-1", NS_RECEIVER, payload), None);
    assert_eq!(close("app-1", NS_CONNECTION, r#"{"type":"CONNECT"}"#), None);
    assert_eq!(session_end(&Received::Nothing, "app-1"), None);
    let lost = session_end(&Received::Disconnected, "app-1").unwrap();
    assert_eq!(lost.message(), "Connection to Chromecast lost");
}

#[test]
fn one_or_two_channels_are_encoded() {
    assert_eq!(layout_for(1), Ok(Layout::Mono));
    assert_eq!(layout_for(2), Ok(Layout::Stereo));
    assert_eq!(layout_for(6), Err(UnsupportedChannels { count: 6 }));
    assert_eq!(layout_for(0).unwrap_err().message(), "unsupported channel count: 0");
}

#[test]
fn looks_end_with_the_deadline() {
    assert_eq!(next_poll(0, 1_000, 500), Some(500));
    assert_eq!(next_poll(600, 1_000, 500), Some(400));
    assert_eq!(next_poll(1_000, 1_000, 500), None);
    assert_eq!(next_poll(2_000, 1_000, 500), None);
}

#[test]
fn offered_secrets_decrypt_what_is_sent() {
    let offer = StreamOffer { ssrc: 99, aes_key: [7; 16], aes_iv_mask: [8; 16] };
    let sender = CastRtpSender::new(rtp_config(&device("A", None), &offer, &answer(vec![0])));
    let packet = sender.next_packet(b"a frame of audio");
    let receiver = CastRtpSender::new(Config {
        chromecast_host: String::new(),
        udp_port: 0,
        ssrc: 0,
        payload_type: 0,
        aes_key: offer.aes_key,
        aes_iv_mask: offer.aes_iv_mask,
    });
    assert_ne!(&packet[19..], b"a frame of audio");
    assert_eq!(receiver.encrypt(&packet[19..], 0), b"a frame of audio");
}
