use chromecast_sink::audio_ring::{channel, AudioRing};

fn pcm(vals: &[i16]) -> Vec<u8> {
    vals.iter().flat_map(|v| v.to_le_bytes()).collect()
}

#[test]
fn roundtrip_preserves_samples() {
    let (mut tx, mut rx) = channel(8, 2);
    tx.write_s16le(&pcm(&[1, 2, 3, 4, 5, 6]));
    assert_eq!(rx.available_frames(), 3);

    let mut out = [0i16; 4];
    assert!(rx.read_frames(&mut out));
    assert_eq!(out, [1, 2, 3, 4]);
    assert_eq!(rx.available_frames(), 1);
}

#[test]
fn underrun_consumes_nothing() {
    let (mut tx, mut rx) = channel(8, 2);
    tx.write_s16le(&pcm(&[1, 2]));
    let mut out = [0i16; 4];
    assert!(!rx.read_frames(&mut out));
    assert_eq!(rx.available_frames(), 1);
}

#[test]
fn wraps_around_the_end() {
    let (mut tx, mut rx) = channel(4, 2);
    tx.write_s16le(&pcm(&[1, 1, 2, 2, 3, 3]));
    let mut out = [0i16; 4];
    assert!(rx.read_frames(&mut out));
    tx.write_s16le(&pcm(&[4, 4, 5, 5]));
    assert!(rx.read_frames(&mut out));
    assert_eq!(out, [3, 3, 4, 4]);
}

#[test]
fn skip_advances_reader() {
    let (mut tx, mut rx) = channel(8, 2);
    tx.write_s16le(&pcm(&[1, 1, 2, 2, 3, 3, 4, 4]));
    rx.skip_frames(3);
    let mut out = [0i16; 2];
    assert!(rx.read_frames(&mut out));
    assert_eq!(out, [4, 4]);
}

#[test]
fn skip_cannot_overtake_the_writer() {
    let (mut tx, mut rx) = channel(8, 2);
    tx.write_s16le(&pcm(&[1, 1, 2, 2]));
    rx.skip_frames(99);
    assert_eq!(rx.available_frames(), 0);
    let mut out = [0i16; 2];
    assert!(!rx.read_frames(&mut out));
}

#[test]
fn overrun_is_visible_to_consumer() {
    let (mut tx, mut rx) = channel(4, 2);
    for _ in 0..3 {
        tx.write_s16le(&pcm(&[9, 9, 9, 9, 9, 9, 9, 9]));
    }
    assert!(rx.available_frames() > rx.capacity_frames());
    let mut out = [0i16; 2];
    assert!(!rx.read_frames(&mut out));
}

#[test]
fn oversized_chunk_keeps_newest() {
    let (mut tx, mut rx) = channel(2, 2);
    tx.write_s16le(&pcm(&[1, 1, 2, 2, 3, 3]));
    assert_eq!(rx.available_frames(), 2);
    let mut out = [0i16; 4];
    assert!(rx.read_frames(&mut out));
    assert_eq!(out, [2, 2, 3, 3]);
}

#[test]
fn chunk_exactly_capacity_is_kept_whole() {
    let (mut tx, mut rx) = channel(4, 2);
    tx.write_s16le(&pcm(&[1, 1, 2, 2, 3, 3, 4, 4]));
    assert_eq!(rx.available_frames(), 4);
    let mut out = [0i16; 8];
    assert!(rx.read_frames(&mut out));
    assert_eq!(out, [1, 1, 2, 2, 3, 3, 4, 4]);
}

#[test]
fn empty_request_is_rejected() {
    let (mut tx, mut rx) = channel(8, 2);
    tx.write_s16le(&pcm(&[1, 1]));
    assert!(!rx.read_frames(&mut []));
    assert_eq!(rx.available_frames(), 1);
}

#[test]
fn close_is_observable() {
    let (tx, rx) = channel(8, 2);
    let closer = tx.closer();
    assert!(!rx.is_closed());
    drop(tx);
    closer.close();
    assert!(rx.is_closed());
}

#[test]
fn cloned_closer_closes_the_same_ring() {
    let (tx, rx) = channel(8, 2);
    let closer = tx.closer().clone();
    assert!(!rx.is_closed());
    closer.close();
    assert!(rx.is_closed());
}

#[test]
fn producer_closes_its_ring() {
    let (tx, rx) = channel(8, 2);
    tx.close();
    assert!(rx.is_closed());
}

#[test]
fn half_frames_are_not_stored() {
    let (mut tx, mut rx) = channel(8, 2);
    let mut bytes = pcm(&[5, 6, 7]);
    bytes.push(1);
    tx.write_s16le(&bytes);
    assert_eq!(rx.available_frames(), 1);
    let mut out = [0i16; 2];
    assert!(rx.read_frames(&mut out));
    assert_eq!(out, [5, 6]);
}

#[test]
fn negative_samples_survive() {
    let (mut tx, mut rx) = channel(4, 1);
    tx.write_s16le(&pcm(&[-1, i16::MIN, i16::MAX, -256]));
    let mut out = [0i16; 4];
    assert!(rx.read_frames(&mut out));
    assert_eq!(out, [-1, i16::MIN, i16::MAX, -256]);
}

#[test]
fn lapped_reader_recovers_the_newest_by_skipping() {
    let mut ring = AudioRing::new(4, 1);
    ring.write_s16le(&pcm(&[1, 2, 3, 4]));
    ring.write_s16le(&pcm(&[5, 6, 7]));
    assert_eq!(ring.available_frames(), 7);
    let mut out = [0i16; 2];
    assert!(!ring.read_frames(&mut out));
    ring.skip_frames(5);
    assert_eq!(ring.available_frames(), 2);
    assert!(ring.read_frames(&mut out));
    assert_eq!(out, [6, 7]);
    assert_eq!(ring.available_frames(), 0);
}

#[test]
fn capacity_is_what_was_asked_for() {
    let (_tx, rx) = channel(8192, 2);
    assert_eq!(rx.capacity_frames(), 8192);
    assert_eq!(AudioRing::new(16, 4).capacity_frames(), 16);
}

#[test]
fn reads_follow_the_stream_of_all_writes() {
    let (mut tx, mut rx) = channel(4, 1);
    assert_eq!(rx.channels(), 1);
    let mut got = Vec::new();
    let mut out = [0i16; 2];
    for batch in 0..10i16 {
        tx.write_s16le(&pcm(&[3 * batch, 3 * batch + 1, 3 * batch + 2]));
        while rx.read_frames(&mut out) {
            got.extend(out);
        }
    }
    assert_eq!(got, (0..30).collect::<Vec<i16>>());
}

#[test]
fn each_read_goes_on_where_the_last_one_ended() {
    let (mut tx, mut rx) = channel(8, 1);
    let mut next: i16 = 0;
    let mut heard: i16 = 0;
    for round in 0..40 {
        let chunk: Vec<i16> = (0..3).map(|i| next + i).collect();
        next += 3;
        tx.write_s16le(&pcm(&chunk));
        if round % 4 == 3 {
            rx.skip_frames(1);
            heard += 1;
        }
        assert_eq!(rx.look(), (false, (next - heard) as usize));
        while rx.available_frames() >= 2 {
            let mut out = [0i16; 2];
            assert!(rx.read_frames(&mut out));
            assert_eq!(out, [heard, heard + 1]);
            heard += 2;
        }
    }
}
