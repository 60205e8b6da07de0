//! Cast RTP: the "cast" profile, which is not SRTP. Each frame is encrypted with
//! AES-128-CTR and travels in one packet behind a 12-byte RTP header and a 7-byte Cast
//! extension; sender reports tell the receiver the clock.

pub use crate::stats::StatsHandle;

use aes::cipher::KeyIvInit;
use aes::cipher::StreamCipher;
use vstd::arithmetic::div_mod::*;
use vstd::prelude::*;

use crate::bytes::push_be16;
use crate::bytes::push_be32;
use crate::stats::Publisher;

verus! {

/// Opus at 48 kHz with 10 ms frames.
pub const OPUS_SAMPLES_PER_FRAME: u32 = 480;

/// Seconds from the NTP epoch, 1900, to the Unix epoch, 1970.
pub const NTP_EPOCH_OFFSET_SECS: u64 = 2_208_988_800;

/// Where a stream goes and how it is labelled and encrypted.
pub struct Config {
    pub chromecast_host: String,
    pub udp_port: u16,
    pub ssrc: u32,
    pub payload_type: u8,
    pub aes_key: [u8; 16],
    pub aes_iv_mask: [u8; 16],
}

/// The RTP timestamp of a frame: a frame is always 480 samples.
pub open spec fn rtp_timestamp(frame_id: u32) -> u32 {
    ((frame_id * OPUS_SAMPLES_PER_FRAME) % 0x1_0000_0000) as u32
}

/// The frame number, big-endian at offset 8 of 16 zero bytes.
pub open spec fn frame_block(frame_id: u32) -> Seq<u8> {
    seq![0u8, 0, 0, 0, 0, 0, 0, 0] + crate::bytes::be32(frame_id) + seq![0u8, 0, 0, 0]
}

/// The counter block at which the encryption of a frame starts.
pub open spec fn nonce_block(mask: Seq<u8>, frame_id: u32) -> Seq<u8> {
    Seq::new(16, |i: int| frame_block(frame_id)[i] ^ mask[i])
}

/// The byte of the AES-128-CTR key stream at a position, for a key and a first counter block.
pub uninterp spec fn aes128_ctr_keystream(key: Seq<u8>, nonce: Seq<u8>, position: int) -> u8;

/// Calls `apply_keystream` of `ctr::Ctr128BE<aes::Aes128>`, fresh from a key and a nonce: each
/// byte is combined by exclusive or with the byte of the key stream at its position. Which
/// byte that is depends on key, nonce and position alone. With a 128-bit counter that starts
/// at zero no data is long enough to use the key stream up.
#[verifier::external_body]
fn apply_aes128_ctr(key: &[u8; 16], nonce: &[u8; 16], data: &mut Vec<u8>)
    ensures
        final(data)@.len() == old(data)@.len(),
        forall|i: int|
            0 <= i < old(data)@.len() ==> #[trigger] final(data)@[i] == old(data)@[i]
                ^ aes128_ctr_keystream(key@, nonce@, i),
{
    ctr::Ctr128BE::<aes::Aes128>::new(key.into(), nonce.into()).apply_keystream(data);
}

/// Data combined with the key stream of a frame. Encryption and decryption are the same.
pub open spec fn crypted(key: Seq<u8>, mask: Seq<u8>, data: Seq<u8>, frame_id: u32) -> Seq<u8> {
    Seq::new(
        data.len(),
        |i: int| data[i] ^ aes128_ctr_keystream(key, nonce_block(mask, frame_id), i),
    )
}

/// The packet of a frame: RTP header, Cast extension, encrypted payload. The frame is a key
/// frame of a single packet that refers to itself.
pub open spec fn packet(ssrc: u32, payload_type: u8, encrypted: Seq<u8>, frame_id: u32) -> Seq<u8> {
    seq![0x80u8, (0x80 + payload_type % 0x80) as u8] + crate::bytes::be16((frame_id % 0x1_0000) as u16)
        + crate::bytes::be32(rtp_timestamp(frame_id)) + crate::bytes::be32(ssrc) + seq![
        0xC0u8,
        (frame_id % 0x100) as u8,
    ] + crate::bytes::be16(0) + crate::bytes::be16(0) + seq![(frame_id % 0x100) as u8] + encrypted
}

/// The numbering and encryption of one stream. A frame is always one packet, so the frame
/// number is also the RTP sequence number and the RTCP packet count. The counts are those
/// that were published last.
pub struct CastRtpSender {
    config: Config,
    publisher: Publisher,
}

impl CastRtpSender {
    /// The parameters of the stream.
    pub closed spec fn config(&self) -> Config {
        self.config
    }

    /// The number of the next frame.
    pub closed spec fn frame_id(&self) -> u32 {
        self.publisher.last().0
    }

    /// Bytes of payload sent so far, modulo 2^64.
    pub closed spec fn octet_count(&self) -> u64 {
        self.publisher.last().1
    }

    /// The handle to which the statistics are published.
    pub closed spec fn handle(&self) -> StatsHandle {
        self.publisher.handle()
    }

    /// The statistics that were published last.
    pub closed spec fn published(&self) -> (u32, u64) {
        self.publisher.last()
    }

    /// The published statistics are always those of the sender.
    pub proof fn published_statistics_are_current(&self)
        ensures
            self.published() == (self.frame_id(), self.octet_count()),
    {
    }

    /// A stream of which nothing was sent.
    pub fn new(config: Config) -> (sender: CastRtpSender)
        ensures
            sender.config() == config,
            sender.frame_id() == 0,
            sender.octet_count() == 0,
            sender.published() == (0u32, 0u64),
    {
        CastRtpSender { config, publisher: Publisher::new() }
    }

    /// The counter block for a frame: its number at offset 8, exclusive or the mask.
    pub fn nonce(&self, frame_id: u32) -> (nonce: [u8; 16])
        ensures
            nonce@ == nonce_block(self.config().aes_iv_mask@, frame_id),
    {
        let mut number: Vec<u8> = Vec::new();
        push_be32(&mut number, frame_id);
        let mut nonce: [u8; 16] = [0u8; 16];
        nonce[8] = number[0];
        nonce[9] = number[1];
        nonce[10] = number[2];
        nonce[11] = number[3];
        assert(nonce@ =~= frame_block(frame_id));
        let mut i: usize = 0;
        while i < 16
            invariant
                i <= 16,
                forall|k: int| 0 <= k < i ==> nonce@[k] == nonce_block(
                    self.config.aes_iv_mask@,
                    frame_id,
                )[k],
                forall|k: int| i <= k < 16 ==> nonce@[k] == frame_block(frame_id)[k],
            decreases 16 - i,
        {
            nonce[i] = nonce[i] ^ self.config.aes_iv_mask[i];
            i = i + 1;
        }
        assert(nonce@ =~= nonce_block(self.config.aes_iv_mask@, frame_id));
        nonce
    }

    /// Encrypts the payload of a frame.
    pub fn encrypt(&self, data: &[u8], frame_id: u32) -> (encrypted: Vec<u8>)
        ensures
            encrypted@ == crypted(
                self.config().aes_key@,
                self.config().aes_iv_mask@,
                data@,
                frame_id,
            ),
    {
        let nonce: [u8; 16] = self.nonce(frame_id);
        let mut buf: Vec<u8> = Vec::new();
        buf.extend_from_slice(data);
        assert(buf@ =~= data@);
        apply_aes128_ctr(&self.config.aes_key, &nonce, &mut buf);
        assert(buf@ =~= crypted(
            self.config.aes_key@,
            self.config.aes_iv_mask@,
            data@,
            frame_id,
        ));
        buf
    }

    /// Puts the headers before an encrypted payload.
    pub fn build_packet(&self, encrypted: &[u8], frame_id: u32) -> (bytes: Vec<u8>)
        ensures
            bytes@ == packet(
                self.config().ssrc,
                self.config().payload_type,
                encrypted@,
                frame_id,
            ),
    {
        let low: u8 = (frame_id % 0x100) as u8;
        let mut bytes: Vec<u8> = Vec::new();
        bytes.push(0x80);
        bytes.push(0x80 + self.config.payload_type % 0x80);
        push_be16(&mut bytes, (frame_id % 0x1_0000) as u16);
        push_be32(&mut bytes, frame_id.wrapping_mul(OPUS_SAMPLES_PER_FRAME));
        push_be32(&mut bytes, self.config.ssrc);
        bytes.push(0xC0);
        bytes.push(low);
        push_be16(&mut bytes, 0);
        push_be16(&mut bytes, 0);
        bytes.push(low);
        bytes.extend_from_slice(encrypted);
        assert(bytes@ =~= packet(
            self.config.ssrc,
            self.config.payload_type,
            encrypted@,
            frame_id,
        ));
        bytes
    }
}

impl CastRtpSender {
    /// The packet that carries the next frame. Nothing advances before it was sent.
    pub fn next_packet(&self, opus_frame: &[u8]) -> (bytes: Vec<u8>)
        ensures
            bytes@ == packet(
                self.config().ssrc,
                self.config().payload_type,
                crypted(
                    self.config().aes_key@,
                    self.config().aes_iv_mask@,
                    opus_frame@,
                    self.frame_id(),
                ),
                self.frame_id(),
            ),
    {
        let (frame_id, _): (u32, u64) = self.publisher.recall();
        let encrypted: Vec<u8> = self.encrypt(opus_frame, frame_id);
        self.build_packet(encrypted.as_slice(), frame_id)
    }

    /// Notes whether the packet of the next frame, with a payload of `octets` bytes, was sent.
    /// The frame number never advances on failure: a gap of 128 or more would desynchronise
    /// the receiver's key stream.
    pub fn packet_sent(&mut self, octets: usize, sent: bool)
        ensures
            final(self).config() == old(self).config(),
            final(self).handle() == old(self).handle(),
            final(self).published() == (final(self).frame_id(), final(self).octet_count()),
            final(self).frame_id() == (if sent {
                old(self).frame_id().wrapping_add(1)
            } else {
                old(self).frame_id()
            }),
            final(self).octet_count() == (if sent {
                old(self).octet_count().wrapping_add(octets as u64)
            } else {
                old(self).octet_count()
            }),
    {
        if sent {
            let (frame_id, octet_count): (u32, u64) = self.publisher.recall();
            self.publisher.publish(
                frame_id.wrapping_add(1),
                octet_count.wrapping_add(octets as u64),
            );
        }
    }

    /// The number of the next frame, and the bytes of payload sent so far.
    pub fn stats(&self) -> (stats: (u32, u64))
        ensures
            stats == (self.frame_id(), self.octet_count()),
    {
        self.publisher.recall()
    }

    /// A handle that follows the statistics from anywhere, while the sender goes on.
    pub fn stats_handle(&self) -> (handle: StatsHandle)
        ensures
            handle == self.handle(),
    {
        self.publisher.follow()
    }
}

/// How often a sender report is due. Without them the receiver kills the mirroring app
/// within seconds.
pub const RTCP_INTERVAL_MS: u64 = 500;

/// What whoever sends the reports does next.
#[derive(Debug, Clone, Copy, PartialEq, Eq, Structural)]
pub enum ReportStep {
    /// Send a report, and wait this many milliseconds for the end of the stream.
    SendAndWait(u64),
    End,
}

/// What follows a wait that has elapsed, or that the end of the stream has cut short.
pub fn after_wait(elapsed: bool) -> (next: ReportStep)
    ensures
        next == (if elapsed {
            ReportStep::SendAndWait(RTCP_INTERVAL_MS)
        } else {
            ReportStep::End
        }),
{
    if elapsed {
        ReportStep::SendAndWait(RTCP_INTERVAL_MS)
    } else {
        ReportStep::End
    }
}

/// The fraction of a second in units of 2^-32.
pub open spec fn ntp_fraction(nanos: u32) -> u32 {
    ((nanos as int * 0x1_0000_0000) / 1_000_000_000 % 0x1_0000_0000) as u32
}

/// Seconds since the NTP epoch, modulo 2^32, at a time given in seconds since the Unix epoch.
pub open spec fn ntp_second(secs: u64) -> u32 {
    ((secs + NTP_EPOCH_OFFSET_SECS) % 0x1_0000_0000) as u32
}

fn ntp_seconds(secs: u64) -> (n: u32)
    ensures
        n == ntp_second(secs),
{
    (secs.wrapping_add(NTP_EPOCH_OFFSET_SECS) % 0x1_0000_0000) as u32
}

fn ntp_second_fraction(nanos: u32) -> (n: u32)
    ensures
        n == ntp_fraction(nanos),
{
    ((nanos as u64 * 0x1_0000_0000) / 1_000_000_000 % 0x1_0000_0000) as u32
}

/// The RTCP sender report: the time as NTP writes it, the RTP time that belongs to it, and
/// how much was sent.
pub open spec fn sender_report(
    ssrc: u32,
    frame_id: u32,
    octet_count: u64,
    secs: u64,
    nanos: u32,
) -> Seq<u8> {
    seq![0x80u8, 200] + crate::bytes::be16(6) + crate::bytes::be32(ssrc) + crate::bytes::be32(
        ntp_second(secs),
    ) + crate::bytes::be32(ntp_fraction(nanos)) + crate::bytes::be32(rtp_timestamp(frame_id))
        + crate::bytes::be32(frame_id) + crate::bytes::be32((octet_count % 0x1_0000_0000) as u32)
}

/// The sender report at a time, given as seconds and nanoseconds since the Unix epoch.
pub fn build_rtcp_sr_at(
    ssrc: u32,
    frame_id: u32,
    octet_count: u64,
    secs: u64,
    nanos: u32,
) -> (report: [u8; 28])
    ensures
        report@ == sender_report(ssrc, frame_id, octet_count, secs, nanos),
{
    let ntp_sec: u32 = ntp_seconds(secs);
    let ntp_frac: u32 = ntp_second_fraction(nanos);
    let mut bytes: Vec<u8> = Vec::new();
    bytes.push(0x80);
    bytes.push(200);
    push_be16(&mut bytes, 6);
    push_be32(&mut bytes, ssrc);
    push_be32(&mut bytes, ntp_sec);
    push_be32(&mut bytes, ntp_frac);
    push_be32(&mut bytes, frame_id.wrapping_mul(OPUS_SAMPLES_PER_FRAME));
    push_be32(&mut bytes, frame_id);
    push_be32(&mut bytes, (octet_count % 0x1_0000_0000) as u32);
    assert(bytes@ =~= sender_report(ssrc, frame_id, octet_count, secs, nanos));
    let mut report: [u8; 28] = [0u8; 28];
    let mut i: usize = 0;
    while i < 28
        invariant
            i <= 28,
            bytes@.len() == 28,
            forall|k: int| 0 <= k < i ==> report@[k] == bytes@[k],
        decreases 28 - i,
    {
        report[i] = bytes[i];
        i = i + 1;
    }
    assert(report@ =~= bytes@);
    report
}

/// Calls `elapsed` of `std::time::SystemTime` on the Unix epoch: the time since then, and
/// zero if the clock stands before it. Nanoseconds are less than a second.
#[verifier::external_body]
fn unix_time() -> (now: (u64, u32))
    ensures
        now.1 < 1_000_000_000,
{
    let now = std::time::UNIX_EPOCH.elapsed().unwrap_or_default();
    (now.as_secs(), now.subsec_nanos())
}

/// The sender report at the current time.
pub fn build_rtcp_sr(ssrc: u32, frame_id: u32, octet_count: u64) -> (report: [u8; 28])
    ensures
        exists|secs: u64, nanos: u32|
            nanos < 1_000_000_000 && report@ == #[trigger] sender_report(
                ssrc,
                frame_id,
                octet_count,
                secs,
                nanos,
            ),
{
    let now: (u64, u32) = unix_time();
    build_rtcp_sr_at(ssrc, frame_id, octet_count, now.0, now.1)
}

/// What was encrypted for a frame is decrypted by encrypting it again.
pub proof fn encrypting_twice_decrypts(key: Seq<u8>, mask: Seq<u8>, data: Seq<u8>, frame_id: u32)
    ensures
        crypted(key, mask, crypted(key, mask, data, frame_id), frame_id) == data,
{
    let once = crypted(key, mask, data, frame_id);
    assert forall|i: int| 0 <= i < data.len() implies crypted(key, mask, once, frame_id)[i]
        == data[i] by {
        let a = data[i];
        let k = aes128_ctr_keystream(key, nonce_block(mask, frame_id), i);
        assert((a ^ k) ^ k == a) by (bit_vector);
    }
    assert(crypted(key, mask, once, frame_id) =~= data);
}

/// No two frames of a stream start at the same counter block.
pub proof fn frames_have_different_nonces(mask: Seq<u8>, a: u32, b: u32)
    requires
        nonce_block(mask, a) == nonce_block(mask, b),
    ensures
        a == b,
{
    assert forall|i: int| 8 <= i < 12 implies frame_block(a)[i] == frame_block(b)[i] by {
        let x = frame_block(a)[i];
        let y = frame_block(b)[i];
        let m = mask[i];
        assert(nonce_block(mask, a)[i] == x ^ m);
        assert(nonce_block(mask, b)[i] == y ^ m);
        assert(x ^ m == y ^ m ==> x == y) by (bit_vector);
    }
    crate::bytes::be32_reads_back(a);
    crate::bytes::be32_reads_back(b);
    assert(crate::bytes::be32(a) =~= frame_block(a).subrange(8, 12));
    assert(crate::bytes::be32(b) =~= frame_block(b).subrange(8, 12));
    assert(frame_block(a).subrange(8, 12) =~= frame_block(b).subrange(8, 12));
}

/// A packet is its payload behind 19 bytes of headers.
pub proof fn packet_carries_payload(ssrc: u32, payload_type: u8, encrypted: Seq<u8>, frame_id: u32)
    ensures
        packet(ssrc, payload_type, encrypted, frame_id).len() == 19 + encrypted.len(),
        packet(ssrc, payload_type, encrypted, frame_id).skip(19) == encrypted,
{
    assert(packet(ssrc, payload_type, encrypted, frame_id).skip(19) =~= encrypted);
}

/// The header of a packet, field by field: version 2; the marker and the payload type; the
/// frame number modulo 2^16 as the sequence number; 480 units of time for each frame; the
/// SSRC; and the Cast extension, which says that the frame is a key frame with a reference,
/// that it is the first and last packet of its frame, and, modulo 2^8, that the frame is this
/// one and refers to itself. Behind it stands the payload.
pub proof fn packets_are_laid_out_field_by_field(
    sender: &CastRtpSender,
    encrypted: &[u8],
    frame_id: u32,
    bytes: Vec<u8>,
)
    requires
        call_ensures(CastRtpSender::build_packet, (sender, encrypted, frame_id), bytes),
    ensures
        bytes@.len() == 19 + encrypted@.len(),
        bytes@[0] == 0x80,
        bytes@[1] >= 0x80,
        bytes@[1] % 0x80 == sender.config().payload_type % 0x80,
        crate::bytes::big_endian(bytes@.subrange(2, 4)) == frame_id % 0x1_0000,
        crate::bytes::big_endian(bytes@.subrange(4, 8)) == frame_id * 480 % 0x1_0000_0000,
        crate::bytes::big_endian(bytes@.subrange(8, 12)) == sender.config().ssrc,
        bytes@[12] == 0xC0,
        bytes@[13] == frame_id % 0x100,
        crate::bytes::big_endian(bytes@.subrange(14, 16)) == 0,
        crate::bytes::big_endian(bytes@.subrange(16, 18)) == 0,
        bytes@[18] == frame_id % 0x100,
        bytes@.skip(19) == encrypted@,
{
    lemma_packet_fields(
        sender.config().ssrc,
        sender.config().payload_type,
        encrypted@,
        frame_id,
    );
}

#[verifier::rlimit(40)]
proof fn lemma_packet_fields(ssrc: u32, payload_type: u8, encrypted: Seq<u8>, frame_id: u32)
    ensures
        ({
            let bytes = packet(ssrc, payload_type, encrypted, frame_id);
            &&& bytes.len() == 19 + encrypted.len()
            &&& bytes[0] == 0x80
            &&& bytes[1] >= 0x80
            &&& bytes[1] % 0x80 == payload_type % 0x80
            &&& crate::bytes::big_endian(bytes.subrange(2, 4)) == frame_id % 0x1_0000
            &&& crate::bytes::big_endian(bytes.subrange(4, 8)) == frame_id * 480 % 0x1_0000_0000
            &&& crate::bytes::big_endian(bytes.subrange(8, 12)) == ssrc
            &&& bytes[12] == 0xC0
            &&& bytes[13] == frame_id % 0x100
            &&& crate::bytes::big_endian(bytes.subrange(14, 16)) == 0
            &&& crate::bytes::big_endian(bytes.subrange(16, 18)) == 0
            &&& bytes[18] == frame_id % 0x100
            &&& bytes.skip(19) == encrypted
        }),
{
    let bytes = packet(ssrc, payload_type, encrypted, frame_id);
    let seq = (frame_id % 0x1_0000) as u16;
    let time = rtp_timestamp(frame_id);
    crate::bytes::numbers_are_big_endian(seq, time, crate::bytes::be32(time));
    crate::bytes::numbers_are_big_endian(0, ssrc, crate::bytes::be32(ssrc));
    assert(bytes.subrange(2, 4) =~= crate::bytes::be16(seq));
    assert(bytes.subrange(4, 8) =~= crate::bytes::be32(time));
    assert(bytes.subrange(8, 12) =~= crate::bytes::be32(ssrc));
    assert(bytes.subrange(14, 16) =~= crate::bytes::be16(0));
    assert(bytes.subrange(16, 18) =~= crate::bytes::be16(0));
    assert(bytes.skip(19) =~= encrypted);
}

/// From one frame to the next the sequence number grows by one, modulo 2^16, and the time by
/// the 480 samples of a frame, modulo 2^32.
pub proof fn packets_are_numbered_one_after_the_other(
    sender: &CastRtpSender,
    one: &[u8],
    other: &[u8],
    frame_id: u32,
    first: Vec<u8>,
    second: Vec<u8>,
)
    requires
        call_ensures(CastRtpSender::build_packet, (sender, one, frame_id), first),
        call_ensures(
            CastRtpSender::build_packet,
            (sender, other, frame_id.wrapping_add(1)),
            second,
        ),
    ensures
        crate::bytes::big_endian(second@.subrange(2, 4)) == (crate::bytes::big_endian(
            first@.subrange(2, 4),
        ) + 1) % 0x1_0000,
        crate::bytes::big_endian(second@.subrange(4, 8)) == (crate::bytes::big_endian(
            first@.subrange(4, 8),
        ) + 480) % 0x1_0000_0000,
        second@[13] == (first@[13] + 1) % 0x100,
{
    let next = frame_id.wrapping_add(1);
    lemma_packet_fields(
        sender.config().ssrc,
        sender.config().payload_type,
        one@,
        frame_id,
    );
    lemma_packet_fields(
        sender.config().ssrc,
        sender.config().payload_type,
        other@,
        next,
    );
    lemma_next_frame(frame_id);
}

proof fn lemma_next_frame(frame_id: u32)
    ensures
        ({
            let next = frame_id.wrapping_add(1);
            &&& next % 0x1_0000 == (frame_id % 0x1_0000 + 1) % 0x1_0000
            &&& next * 480 % 0x1_0000_0000 == (frame_id * 480 % 0x1_0000_0000 + 480)
                % 0x1_0000_0000
            &&& next % 0x100 == (frame_id % 0x100 + 1) % 0x100
        }),
{
    let f = frame_id as int;
    if frame_id < u32::MAX {
        lemma_add_mod_noop(f, 1, 0x1_0000);
        lemma_add_mod_noop(f * 480, 480, 0x1_0000_0000);
        lemma_add_mod_noop(f, 1, 0x100);
        assert((f + 1) * 480 == f * 480 + 480);
    } else {
        assert(f % 0x1_0000 == 0xFFFF);
        assert(f % 0x100 == 0xFF);
        assert(f * 480 == 479 * 0x1_0000_0000 + (0x1_0000_0000 - 480));
        lemma_fundamental_div_mod_converse(
            f * 480,
            0x1_0000_0000,
            479,
            0x1_0000_0000 - 480,
        );
    }
}

/// The counter block of a frame is the mask, but for bytes 8 to 11: there it differs from the
/// mask by the frame number, most significant byte first.
pub proof fn nonces_are_the_frame_number_under_the_mask(
    sender: &CastRtpSender,
    frame_id: u32,
    nonce: [u8; 16],
)
    requires
        call_ensures(CastRtpSender::nonce, (sender, frame_id), nonce),
    ensures
        forall|i: int|
            0 <= i < 8 || 12 <= i < 16 ==> #[trigger] nonce@[i] == sender.config().aes_iv_mask@[i],
        crate::bytes::big_endian(
            Seq::new(4, |i: int| nonce@[8 + i] ^ sender.config().aes_iv_mask@[8 + i]),
        ) == frame_id,
{
    let mask = sender.config().aes_iv_mask@;
    let number = Seq::new(4, |i: int| nonce@[8 + i] ^ mask[8 + i]);
    assert forall|i: int| 0 <= i < 8 || 12 <= i < 16 implies #[trigger] nonce@[i] == mask[i] by {
        let m = mask[i];
        assert(frame_block(frame_id)[i] == 0);
        assert(0u8 ^ m == m) by (bit_vector);
    }
    assert forall|i: int| 0 <= i < 4 implies #[trigger] number[i] == crate::bytes::be32(
        frame_id,
    )[i] by {
        let m = mask[8 + i];
        let b = frame_block(frame_id)[8 + i];
        assert(b == crate::bytes::be32(frame_id)[i]);
        assert((b ^ m) ^ m == b) by (bit_vector);
    }
    assert(number =~= crate::bytes::be32(frame_id));
    crate::bytes::numbers_are_big_endian(0, frame_id, crate::bytes::be32(frame_id));
}

/// Each byte of an encrypted frame is that byte of the frame, combined with the byte of the
/// AES-128-CTR key stream at its place, from the stream's key and the frame's counter block on.
pub proof fn frames_are_encrypted_byte_by_byte(
    sender: &CastRtpSender,
    data: &[u8],
    frame_id: u32,
    encrypted: Vec<u8>,
    nonce: [u8; 16],
    i: int,
)
    requires
        call_ensures(CastRtpSender::encrypt, (sender, data, frame_id), encrypted),
        call_ensures(CastRtpSender::nonce, (sender, frame_id), nonce),
        0 <= i < data@.len(),
    ensures
        encrypted@.len() == data@.len(),
        encrypted@[i] ^ data@[i] == aes128_ctr_keystream(sender.config().aes_key@, nonce@, i),
{
    let a = data@[i];
    let k = aes128_ctr_keystream(sender.config().aes_key@, nonce@, i);
    assert((a ^ k) ^ a == k) by (bit_vector);
}

/// The packet of the next frame is the one that the frame, encrypted under its number, makes.
pub proof fn next_packets_carry_the_encrypted_frame(
    sender: &CastRtpSender,
    frame: &[u8],
    encrypted: Vec<u8>,
    payload: &[u8],
    built: Vec<u8>,
    sent: Vec<u8>,
)
    requires
        call_ensures(CastRtpSender::encrypt, (sender, frame, sender.frame_id()), encrypted),
        payload@ == encrypted@,
        call_ensures(CastRtpSender::build_packet, (sender, payload, sender.frame_id()), built),
        call_ensures(CastRtpSender::next_packet, (sender, frame), sent),
    ensures
        sent@ == built@,
{
}

/// A new stream begins with frame 0 and no bytes. A frame that was sent counts once, with its
/// bytes, each count modulo its size; one that was not sent counts for nothing.
pub proof fn sent_frames_are_counted(
    config: Config,
    fresh: CastRtpSender,
    sender: &mut CastRtpSender,
    octets: usize,
    sent: bool,
)
    requires
        call_ensures(CastRtpSender::new, (config,), fresh),
        call_ensures(CastRtpSender::packet_sent, (sender, octets, sent), ()),
    ensures
        fresh.frame_id() == 0 && fresh.octet_count() == 0 && fresh.config() == config,
        final(sender).config() == old(sender).config(),
        sent ==> final(sender).frame_id() == (old(sender).frame_id() + 1) % 0x1_0000_0000,
        sent ==> final(sender).octet_count() == (old(sender).octet_count() + octets)
            % 0x1_0000_0000_0000_0000,
        !sent ==> final(sender).frame_id() == old(sender).frame_id(),
        !sent ==> final(sender).octet_count() == old(sender).octet_count(),
{
}

/// The sender report, field by field: version 2 and type 200; its length in words, less one;
/// the SSRC; seconds since 1900, modulo 2^32; the largest number of parts of 2^-32 of a second
/// that has gone by; the time of the next frame, as its packet gives it; and how many packets and
/// bytes were sent, modulo 2^32.
pub proof fn reports_are_laid_out_field_by_field(
    ssrc: u32,
    frame_id: u32,
    octet_count: u64,
    secs: u64,
    nanos: u32,
    report: [u8; 28],
)
    requires
        call_ensures(build_rtcp_sr_at, (ssrc, frame_id, octet_count, secs, nanos), report),
        nanos < 1_000_000_000,
    ensures
        report@[0] == 0x80,
        report@[1] == 200,
        crate::bytes::big_endian(report@.subrange(2, 4)) == report@.len() / 4 - 1,
        crate::bytes::big_endian(report@.subrange(4, 8)) == ssrc,
        crate::bytes::big_endian(report@.subrange(8, 12)) == (secs + 2_208_988_800)
            % 0x1_0000_0000,
        ({
            let parts = crate::bytes::big_endian(report@.subrange(12, 16));
            parts * 1_000_000_000 <= nanos * 0x1_0000_0000 < (parts + 1) * 1_000_000_000
        }),
        crate::bytes::big_endian(report@.subrange(16, 20)) == frame_id * 480 % 0x1_0000_0000,
        crate::bytes::big_endian(report@.subrange(20, 24)) == frame_id,
        crate::bytes::big_endian(report@.subrange(24, 28)) == octet_count % 0x1_0000_0000,
{
    lemma_report_fields(
        ssrc,
        ntp_second(secs),
        ntp_fraction(nanos),
        rtp_timestamp(frame_id),
        frame_id,
        (octet_count % 0x1_0000_0000) as u32,
    );
    lemma_fraction(nanos);
}

/// The six numbers of a report stand one after the other behind its head.
#[verifier::rlimit(40)]
proof fn lemma_report_fields(a: u32, b: u32, c: u32, d: u32, e: u32, f: u32)
    ensures
        ({
            let report = seq![0x80u8, 200] + crate::bytes::be16(6) + crate::bytes::be32(a)
                + crate::bytes::be32(b) + crate::bytes::be32(c) + crate::bytes::be32(d)
                + crate::bytes::be32(e) + crate::bytes::be32(f);
            &&& crate::bytes::big_endian(report.subrange(2, 4)) == 6
            &&& crate::bytes::big_endian(report.subrange(4, 8)) == a
            &&& crate::bytes::big_endian(report.subrange(8, 12)) == b
            &&& crate::bytes::big_endian(report.subrange(12, 16)) == c
            &&& crate::bytes::big_endian(report.subrange(16, 20)) == d
            &&& crate::bytes::big_endian(report.subrange(20, 24)) == e
            &&& crate::bytes::big_endian(report.subrange(24, 28)) == f
        }),
{
    let report = seq![0x80u8, 200] + crate::bytes::be16(6) + crate::bytes::be32(a)
        + crate::bytes::be32(b) + crate::bytes::be32(c) + crate::bytes::be32(d)
        + crate::bytes::be32(e) + crate::bytes::be32(f);
    crate::bytes::numbers_are_big_endian(6, a, crate::bytes::be32(a));
    crate::bytes::numbers_are_big_endian(6, b, crate::bytes::be32(a));
    crate::bytes::numbers_are_big_endian(6, c, crate::bytes::be32(a));
    crate::bytes::numbers_are_big_endian(6, d, crate::bytes::be32(a));
    crate::bytes::numbers_are_big_endian(6, e, crate::bytes::be32(a));
    crate::bytes::numbers_are_big_endian(6, f, crate::bytes::be32(a));
    assert(report.subrange(2, 4) =~= crate::bytes::be16(6));
    assert(report.subrange(4, 8) =~= crate::bytes::be32(a));
    assert(report.subrange(8, 12) =~= crate::bytes::be32(b));
    assert(report.subrange(12, 16) =~= crate::bytes::be32(c));
    assert(report.subrange(16, 20) =~= crate::bytes::be32(d));
    assert(report.subrange(20, 24) =~= crate::bytes::be32(e));
    assert(report.subrange(24, 28) =~= crate::bytes::be32(f));
}

proof fn lemma_fraction(nanos: u32)
    requires
        nanos < 1_000_000_000,
    ensures
        ntp_fraction(nanos) * 1_000_000_000 <= nanos * 0x1_0000_0000 < (ntp_fraction(nanos) + 1)
            * 1_000_000_000,
{
    let units = nanos as int * 0x1_0000_0000;
    let whole = units / 1_000_000_000;
    lemma_fundamental_div_mod(units, 1_000_000_000);
    lemma_mod_bound(units, 1_000_000_000);
    assert(0 <= whole < 0x1_0000_0000);
    lemma_small_mod(whole as nat, 0x1_0000_0000);
}

/// Reports go on for as long as the waits between them elapse.
pub proof fn reports_follow_every_wait(elapsed: bool, next: ReportStep)
    requires
        call_ensures(after_wait, (elapsed,), next),
    ensures
        next is End <==> !elapsed,
        next matches ReportStep::SendAndWait(ms) ==> ms == 500,
{
}

/// The report of the current time says of the stream what the report of any time says.
pub proof fn current_reports_tell_the_same_of_the_stream(
    ssrc: u32,
    frame_id: u32,
    octet_count: u64,
    report: [u8; 28],
)
    requires
        call_ensures(build_rtcp_sr, (ssrc, frame_id, octet_count), report),
    ensures
        report@[0] == 0x80,
        report@[1] == 200,
        crate::bytes::big_endian(report@.subrange(2, 4)) == report@.len() / 4 - 1,
        crate::bytes::big_endian(report@.subrange(4, 8)) == ssrc,
        crate::bytes::big_endian(report@.subrange(16, 20)) == frame_id * 480 % 0x1_0000_0000,
        crate::bytes::big_endian(report@.subrange(20, 24)) == frame_id,
        crate::bytes::big_endian(report@.subrange(24, 28)) == octet_count % 0x1_0000_0000,
{
    let (secs, nanos) = choose|secs: u64, nanos: u32|
        nanos < 1_000_000_000 && report@ == #[trigger] sender_report(
            ssrc,
            frame_id,
            octet_count,
            secs,
            nanos,
        );
    lemma_report_fields(
        ssrc,
        ntp_second(secs),
        ntp_fraction(nanos),
        rtp_timestamp(frame_id),
        frame_id,
        (octet_count % 0x1_0000_0000) as u32,
    );
}

/// The statistics of a sender are how many frames were counted and how many bytes.
pub proof fn statistics_are_the_counts(sender: &CastRtpSender, stats: (u32, u64), handle: StatsHandle)
    requires
        call_ensures(CastRtpSender::stats, (sender,), stats),
        call_ensures(CastRtpSender::stats_handle, (sender,), handle),
    ensures
        stats.0 == sender.frame_id(),
        stats.1 == sender.octet_count(),
        sender.published() == stats,
        handle == sender.handle(),
{
}

} // verus!
