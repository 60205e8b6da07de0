use chromecast_sink::audio_ring::channel;
use chromecast_sink::capture::{
    frames_for_ms, has_room, plan, Capture, Outage, Plan, Round, SendReport,
};

#[test]
fn milliseconds_are_48_frames_each() {
    assert_eq!(frames_for_ms(0), 0);
    assert_eq!(frames_for_ms(10), 480);
    assert_eq!(frames_for_ms(30), 1440);
}

#[test]
fn plan_follows_the_backlog() {
    assert_eq!(plan(true, true, 5000), Plan::Stop);
    assert_eq!(plan(false, true, 5000), Plan::SinkLost);
    assert_eq!(plan(false, false, 1441), Plan::Drop(961));
    assert_eq!(plan(false, false, 1440), Plan::Read);
    assert_eq!(plan(false, false, 480), Plan::Read);
    assert_eq!(plan(false, false, 479), Plan::Sleep(200));
    assert_eq!(plan(false, false, 240), Plan::Sleep(5_000));
    assert_eq!(plan(false, false, 0), Plan::Sleep(10_000));
}

#[test]
fn small_rings_have_no_room() {
    assert!(has_room(&channel(4096, 2).1));
    assert!(!has_room(&channel(2048, 2).1));
    assert!(has_room(&channel(8192, 1).1));
    assert!(!has_room(&channel(2048, 1).1));
}

fn silence(frames: usize) -> Vec<u8> {
    vec![0; 4 * frames]
}

#[test]
fn rounds_drop_sleep_and_read() {
    let (mut tx, mut rx) = channel(8192, 2);
    tx.write_s16le(&silence(5000));
    let mut capture = Capture::start(&mut rx, 7);
    assert_eq!(rx.available_frames(), 0, "what came before the start is passed over");
    let mut pcm = [0i16; 960];
    assert_eq!(capture.round(&mut rx, &mut pcm, false), Round::Sleep(10_000));

    let frame: Vec<u8> = (0..960i16).flat_map(|v| v.to_le_bytes()).collect();
    tx.write_s16le(&silence(1000));
    tx.write_s16le(&frame);
    assert_eq!(capture.round(&mut rx, &mut pcm, false), Round::Dropped(1000));
    assert_eq!(capture.dropped_total, 1000);
    assert_eq!(capture.round(&mut rx, &mut pcm, false), Round::Frame);
    assert_eq!(pcm[0], 0);
    assert_eq!(pcm[959], 959);
    assert_eq!(capture.round(&mut rx, &mut pcm, true), Round::Stopped);
    tx.close();
    assert_eq!(capture.round(&mut rx, &mut pcm, false), Round::SinkLost);
}

#[test]
fn rounds_take_a_buffer_of_mono_frames() {
    let (mut tx, mut rx) = channel(4096, 1);
    let mut capture = Capture::start(&mut rx, 0);
    let samples: Vec<u8> = (0..1300i16).flat_map(|v| v.to_le_bytes()).collect();
    let mut pcm = [-1i16; 960];
    tx.write_s16le(&samples[..2 * 500]);
    assert_eq!(capture.round(&mut rx, &mut pcm, false), Round::Torn, "too few for the buffer");
    assert_eq!(pcm, [-1i16; 960]);
    tx.write_s16le(&samples[2 * 500..]);
    assert_eq!(capture.round(&mut rx, &mut pcm, false), Round::Frame);
    assert_eq!((pcm[0], pcm[959]), (0, 959));
    assert_eq!(rx.available_frames(), 340);
    assert_eq!(capture.round(&mut rx, &mut pcm, false), Round::Sleep(2_916));
}

#[test]
fn rounds_take_a_buffer_of_quadraphonic_frames() {
    let (mut tx, mut rx) = channel(4096, 4);
    let mut capture = Capture::start(&mut rx, 0);
    let samples: Vec<u8> = (0..1920i16).flat_map(|v| v.to_le_bytes()).collect();
    let mut pcm = [0i16; 960];
    tx.write_s16le(&samples);
    assert_eq!(capture.round(&mut rx, &mut pcm, false), Round::Frame);
    assert_eq!((pcm[0], pcm[959]), (0, 959));
    assert_eq!(rx.available_frames(), 240);
}

#[test]
fn first_frame_is_noted_once() {
    let (_tx, mut rx) = channel(4096, 2);
    let mut capture = Capture::start(&mut rx, 0);
    assert!(capture.frame_read(5));
    assert!(!capture.frame_read(6));
    assert_eq!(capture.first_frame, Some(5));
}

#[test]
fn outages_heal_or_become_fatal() {
    let (_tx, mut rx) = channel(4096, 2);
    let mut capture = Capture::start(&mut rx, 0);
    const SECOND: u64 = 1_000_000_000;
    assert_eq!(capture.frame_sent(true, SECOND), SendReport::Delivered);
    assert_eq!(capture.frame_sent(false, 2 * SECOND), SendReport::OutageBegan);
    assert_eq!(capture.frame_sent(false, 7 * SECOND - 1), SendReport::OutageGoesOn);
    assert_eq!(capture.outage, Some(Outage { since: 2 * SECOND, frames: 2 }));
    assert_eq!(
        capture.frame_sent(true, 8 * SECOND),
        SendReport::Recovered { discarded: 2, down: 6 * SECOND }
    );
    assert_eq!(capture.frame_sent(false, 9 * SECOND), SendReport::OutageBegan);
    assert_eq!(
        capture.frame_sent(false, 14 * SECOND),
        SendReport::OutageFatal { down: 5 * SECOND }
    );
    assert_eq!(capture.frames, 2);
    assert_eq!(capture.send_failures, 4);
}

#[test]
fn statistics_are_due_every_five_seconds() {
    let (_tx, mut rx) = channel(4096, 2);
    let mut capture = Capture::start(&mut rx, 1);
    assert!(!capture.stats_due(5_000_000_000));
    assert!(capture.stats_due(5_000_000_001));
    assert!(!capture.stats_due(5_000_000_002));
}

#[test]
fn batch_between_look_and_read_does_not_tear_the_frame() {
    let (mut tx, mut rx) = channel(4096, 2);
    let frame: Vec<u8> = (1..961i16).flat_map(|v| v.to_le_bytes()).collect();
    tx.write_s16le(&frame);
    tx.write_s16le(&silence(960));
    assert_eq!(plan(false, rx.is_closed(), rx.available_frames()), Plan::Read);
    tx.write_s16le(&silence(2048));
    let mut pcm = [0i16; 960];
    assert!(rx.read_frames(&mut pcm));
    assert_eq!(pcm[0], 1);
    assert_eq!(pcm[959], 960);
}

#[test]
fn start_discards_the_backlog() {
    let (mut tx, mut rx) = channel(8192, 2);
    tx.write_s16le(&[1u8; 1920]);
    assert_eq!(rx.look(), (false, 480));
    let mut capture = Capture::start(&mut rx, 0);
    assert_eq!(rx.available_frames(), 0);
    let mut pcm = [0i16; 960];
    assert_eq!(capture.round(&mut rx, &mut pcm, true), Round::Stopped);
    assert_eq!(pcm, [0i16; 960]);
    assert_eq!(capture.frames, 0);
}

#[test]
fn closed_ring_is_lost_even_with_unread_frames() {
    let (mut tx, mut rx) = channel(8192, 2);
    let mut capture = Capture::start(&mut rx, 0);
    tx.write_s16le(&silence(480));
    tx.close();
    let mut pcm = [0i16; 960];
    assert_eq!(capture.round(&mut rx, &mut pcm, false), Round::SinkLost);
    assert_eq!(rx.available_frames(), 480);
}
