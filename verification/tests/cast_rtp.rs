use chromecast_sink::cast_rtp::{
    after_wait, build_rtcp_sr, build_rtcp_sr_at, CastRtpSender, Config, ReportStep,
    OPUS_SAMPLES_PER_FRAME,
};

fn cfg() -> Config {
    Config {
        chromecast_host: "127.0.0.1".into(),
        udp_port: 9999,
        ssrc: 0xDEAD_BEEF,
        payload_type: 127,
        aes_key: [0x00; 16],
        aes_iv_mask: [0x11; 16],
    }
}

#[test]
fn packet_layout_matches_openscreen() {
    let s = CastRtpSender::new(cfg());
    let pkt = s.build_packet(b"payload", 5);
    assert_eq!(pkt.len(), 19 + 7);
    assert_eq!(pkt[0], 0x80);
    assert_eq!(pkt[1], 0xFF);
    assert_eq!(u16::from_be_bytes([pkt[2], pkt[3]]), 5);
    assert_eq!(u32::from_be_bytes([pkt[4], pkt[5], pkt[6], pkt[7]]), 5 * OPUS_SAMPLES_PER_FRAME);
    assert_eq!(u32::from_be_bytes([pkt[8], pkt[9], pkt[10], pkt[11]]), 0xDEAD_BEEF);
    assert_eq!(pkt[12], 0xC0);
    assert_eq!(pkt[13], 5);
    assert_eq!(u16::from_be_bytes([pkt[14], pkt[15]]), 0);
    assert_eq!(u16::from_be_bytes([pkt[16], pkt[17]]), 0);
    assert_eq!(pkt[18], 5);
    assert_eq!(&pkt[19..], b"payload");
}

#[test]
fn failed_send_does_not_advance_frame_id() {
    let mut s = CastRtpSender::new(cfg());
    for _ in 0..3 {
        let _lost = s.next_packet(b"opus");
        s.packet_sent(4, false);
        assert_eq!(s.stats(), (0, 0));
    }

    let buf = s.next_packet(b"opus");
    s.packet_sent(4, true);
    assert_eq!(buf.len(), 19 + 4);
    assert_eq!(buf[13], 0, "resumes at the frame_id the failed sends held");
    assert_eq!(s.stats(), (1, 4));
}

#[test]
fn nonce_construction() {
    let s = CastRtpSender::new(cfg());
    let n = s.nonce(1);
    let mut expected = [0u8; 16];
    expected[11] = 1;
    for b in &mut expected {
        *b ^= 0x11;
    }
    assert_eq!(n, expected);
}

fn diff_cfg() -> Config {
    let mut key = [0u8; 16];
    let mut mask = [0u8; 16];
    for i in 0..16 {
        key[i] = i as u8;
        mask[i] = 0xF0 + i as u8;
    }
    Config {
        chromecast_host: "127.0.0.1".into(),
        udp_port: 1,
        ssrc: 0xDEAD_BEEF,
        payload_type: 127,
        aes_key: key,
        aes_iv_mask: mask,
    }
}

#[test]
fn encryption_matches_reference_vectors() {
    let s = CastRtpSender::new(diff_cfg());
    let payload = b"0123456789abcdef";
    for (fid, expected) in [
        (0u32, "5696f5db0067077faf68bf655072c8cb"),
        (5, "32f6787cc44c4201f466acc715997af9"),
        (256, "da4c3a84b5565c4161b5d95ebcffa2d4"),
        (0x1234_5678, "747b8dae4bc012851ec33fba1e6b8ea3"),
    ] {
        assert_eq!(hex::encode(s.encrypt(payload, fid)), expected, "frame_id={fid}");
    }
}

#[test]
fn packet_matches_openscreen_layout() {
    let s = CastRtpSender::new(diff_cfg());
    assert_eq!(
        hex::encode(s.build_packet(b"payload", 5)),
        "80ff000500000960deadbeefc00500000000057061796c6f6164"
    );
    // frame_id > 255: both offset 13 and offset 18 truncate to low 8 bits.
    assert_eq!(
        hex::encode(s.build_packet(b"xy", 300)),
        "80ff012c00023280deadbeefc02c000000002c7879"
    );
}

#[test]
fn rtcp_sr_matches_reference_vector() {
    let sr = build_rtcp_sr_at(0xDEAD_BEEF, 12345, 987_654, 1_234_567_890, 500_000_000);
    assert_eq!(
        hex::encode(sr),
        "80c80006deadbeefcd40815280000000005a6ae000003039000f1206"
    );
}

#[test]
fn rtcp_sr_size_and_header() {
    let sr = build_rtcp_sr(0xDEAD_BEEF, 100, 12345);
    assert_eq!(sr.len(), 28);
    assert_eq!(sr[0], 0x80);
    assert_eq!(sr[1], 200);
    assert_eq!(u16::from_be_bytes([sr[2], sr[3]]), 6);
    assert_eq!(u32::from_be_bytes([sr[4], sr[5], sr[6], sr[7]]), 0xDEAD_BEEF);
    assert_eq!(u32::from_be_bytes([sr[16], sr[17], sr[18], sr[19]]), 100 * OPUS_SAMPLES_PER_FRAME);
    assert_eq!(u32::from_be_bytes([sr[20], sr[21], sr[22], sr[23]]), 100);
}

#[test]
fn sender_report_tells_the_current_time() {
    let sr = build_rtcp_sr(1, 2, 3);
    let secs = u32::from_be_bytes([sr[8], sr[9], sr[10], sr[11]]);
    let then = (1_700_000_000u64 + 2_208_988_800) as u32;
    assert!(secs.wrapping_sub(then) < 0x8000_0000, "the clock stands before 2023");
}

#[test]
fn encrypting_twice_gives_the_frame_back() {
    let s = CastRtpSender::new(diff_cfg());
    let frame: Vec<u8> = (0..200u8).collect();
    let once = s.encrypt(&frame, 77);
    assert_ne!(once, frame);
    assert_eq!(s.encrypt(&once, 77), frame);
}

#[test]
fn frames_have_nonces_of_their_own() {
    let s = CastRtpSender::new(diff_cfg());
    assert_ne!(s.nonce(1), s.nonce(0x0100_0000));
    assert_ne!(s.encrypt(b"same", 1), s.encrypt(b"same", 2));
}

#[test]
fn next_packet_is_the_encrypted_frame_behind_headers() {
    let mut s = CastRtpSender::new(diff_cfg());
    s.packet_sent(10, true);
    let pkt = s.next_packet(b"0123456789abcdef");
    assert_eq!(pkt, s.build_packet(&s.encrypt(b"0123456789abcdef", 1), 1));
    assert_eq!(s.encrypt(&pkt[19..], 1), b"0123456789abcdef");
}

#[test]
fn statistics_are_published() {
    let mut s = CastRtpSender::new(cfg());
    let handle = s.stats_handle().clone();
    assert_eq!(handle.snapshot(), (0, 0));
    s.packet_sent(161, true);
    s.packet_sent(3, false);
    s.packet_sent(39, true);
    assert_eq!(handle.snapshot(), (2, 200));
    assert_eq!(s.stats(), (2, 200));
}

#[test]
fn timestamps_wrap_with_the_frame_number() {
    let s = CastRtpSender::new(cfg());
    let pkt = s.build_packet(&[], u32::MAX);
    assert_eq!(&pkt[2..8], &[0xFF, 0xFF, 0xFF, 0xFF, 0xFE, 0x20]);
}

#[test]
fn reports_go_on_every_half_second_until_the_end() {
    assert_eq!(after_wait(true), ReportStep::SendAndWait(500));
    assert_eq!(after_wait(false), ReportStep::End);
}
