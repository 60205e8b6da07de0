//! The decisions of a run that speaks the plain form of the channel.

pub use crate::pipeline::accepts_audio;
pub use crate::pipeline::device_line;
pub use crate::pipeline::choose_device;
pub use crate::pipeline::pick_device;
pub use crate::pipeline::refusal_message;

use vstd::prelude::*;

use crate::cast_rtp::Config;
use crate::discovery::Device;
use crate::mirroring::StreamAnswer;
use crate::pipeline::PickError;
use crate::webrtc::StreamOffer;

verus! {

/// Why no device was chosen, in the words of this run.
pub open spec fn pick_words(error: PickError) -> Seq<char> {
    match error {
        PickError::NoDevices => "No Chromecast devices found.\nCheck that your device is powered on, on the same network, and\nthat multicast UDP 5353 is not blocked by a firewall."@,
        PickError::Ambiguous(_) => "device selection required"@,
    }
}

/// Why no device was chosen, in the words of this run.
pub fn pick_message(error: &PickError) -> (text: String)
    ensures
        text@ == pick_words(*error),
{
    match error {
        PickError::NoDevices => "No Chromecast devices found.\nCheck that your device is powered on, on the same network, and\nthat multicast UDP 5353 is not blocked by a firewall.".to_owned(),
        PickError::Ambiguous(_) => "device selection required".to_owned(),
    }
}

/// Where the stream goes and how it is labelled and encrypted, as device, offer and answer
/// say it.
pub fn rtp_config(device: &Device, offer: &StreamOffer, answer: &StreamAnswer) -> (config: Config)
    ensures
        config.chromecast_host@ == device.host@,
        config.udp_port == answer.udp_port,
        config.ssrc == offer.ssrc,
        config.payload_type == offer.rtp_payload_type,
        config.aes_key == offer.aes_key,
        config.aes_iv_mask == offer.aes_iv_mask,
{
    Config {
        chromecast_host: device.host.as_str().to_owned(),
        udp_port: answer.udp_port,
        ssrc: offer.ssrc,
        payload_type: offer.rtp_payload_type,
        aes_key: offer.aes_key,
        aes_iv_mask: offer.aes_iv_mask,
    }
}

/// The packets of a stream are those of the stream that was offered: they carry the SSRC and the
/// payload type that the offer names, and are encrypted with the secrets that it names. They go
/// to the device, to the port that it answered with.
pub proof fn packets_belong_to_the_offered_stream(
    ids: &mut crate::mirroring::RequestIds,
    transport_id: &str,
    offer: &StreamOffer,
    message: crate::cast_channel::CastMessage,
    stream: crate::json::Json,
    device: &Device,
    answer: &StreamAnswer,
    config: Config,
    sender: crate::cast_rtp::CastRtpSender,
    encrypted: &[u8],
    frame_id: u32,
    bytes: Vec<u8>,
)
    requires
        call_ensures(crate::webrtc::send_offer, (ids, transport_id, offer), message),
        crate::mirroring::offers_one_stream(
            crate::json::parsed(message@.payload)->0,
            old(ids).next,
            stream,
        ),
        call_ensures(rtp_config, (device, offer, answer), config),
        call_ensures(crate::cast_rtp::CastRtpSender::new, (config,), sender),
        call_ensures(
            crate::cast_rtp::CastRtpSender::build_packet,
            (&sender, encrypted, frame_id),
            bytes,
        ),
        offer.rtp_payload_type < 0x80,
    ensures
        config.chromecast_host@ == device@.host,
        config.udp_port == answer@.udp_port,
        stream.unsigned_at("ssrc"@) == Some(
            crate::bytes::big_endian(bytes@.subrange(8, 12)) as u64,
        ),
        stream.unsigned_at("rtpPayloadType"@) == Some((bytes@[1] % 0x80) as u64),
        stream.text_at("aesKey"@) == Some(crate::bytes::hex_text(sender.config().aes_key@)),
        stream.text_at("aesIvMask"@) == Some(crate::bytes::hex_text(sender.config().aes_iv_mask@)),
{
    let document = crate::json::parsed(message@.payload)->0;
    crate::webrtc::offers_describe_their_stream(ids, transport_id, offer, message);
    let offered = choose|offered: crate::json::Json| #[trigger]
        crate::mirroring::offers_one_stream(document, old(ids).next, offered)
            && crate::webrtc::tells_of(offered, *offer);
    assert(seq![offered][0] == seq![stream][0]);
    crate::cast_rtp::packets_are_laid_out_field_by_field(&sender, encrypted, frame_id, bytes);
}

} // verus!
