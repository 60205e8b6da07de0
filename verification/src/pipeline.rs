//! The decisions of a run: which device, which app, whether the stream was accepted, where it
//! goes, and when the session is over.

use vstd::prelude::*;

use crate::cast_channel::payload_type_is;
use crate::cast_channel::CastMessage;
use crate::cast_channel::MessageView;
use crate::cast_channel::NS_CONNECTION;
use crate::cast_rtp::Config;
use crate::discovery::Device;
use crate::mirroring::Received;
use crate::mirroring::StreamAnswer;
use crate::mirroring::StreamMode;
use crate::mirroring::StreamOffer;
use crate::mirroring::RTP_PAYLOAD_TYPE;
use crate::text::push_decimal;
use crate::text::same_text;

verus! {

/// How long each step of setting a session up may take.
pub const TIMEOUT_SECS: u64 = 10;

/// Why no device was chosen.
#[derive(Debug)]
pub enum PickError {
    NoDevices,
    /// One of these has to be asked for by name.
    Ambiguous(Vec<Device>),
}

impl PickError {
    /// What went wrong, in words.
    pub open spec fn words(self) -> Seq<char> {
        match self {
            PickError::NoDevices => "No Chromecast devices found.\nCheck that your device is powered on, on the same network, and that multicast UDP 5353 is not blocked by a firewall."@,
            PickError::Ambiguous(_) => "device selection required"@,
        }
    }

    /// What went wrong, in words.
    pub fn message(&self) -> (text: String)
        ensures
            text@ == self.words(),
    {
        match self {
            PickError::NoDevices => "No Chromecast devices found.\nCheck that your device is powered on, on the same network, and that multicast UDP 5353 is not blocked by a firewall.".to_owned(),
            PickError::Ambiguous(_) => "device selection required".to_owned(),
        }
    }
}

/// Chooses the device if there is exactly one. Of any other number, none among them, one has
/// to be asked for by name.
pub fn pick_device(devices: Vec<Device>) -> (picked: Result<Device, PickError>)
    ensures
        match picked {
            Ok(device) => devices@.len() == 1 && device == devices@[0],
            Err(PickError::NoDevices) => false,
            Err(PickError::Ambiguous(list)) => devices@.len() != 1 && list == devices,
        },
{
    let mut devices = devices;
    if devices.len() == 1 {
        Ok(devices.remove(0))
    } else {
        Err(PickError::Ambiguous(devices))
    }
}

/// Chooses among the devices that were found, if any were.
pub fn choose_device(devices: Vec<Device>) -> (picked: Result<Device, PickError>)
    ensures
        match picked {
            Ok(device) => devices@.len() == 1 && device == devices@[0],
            Err(PickError::NoDevices) => devices@.len() == 0,
            Err(PickError::Ambiguous(list)) => devices@.len() > 1 && list == devices,
        },
{
    if devices.len() == 0 {
        Err(PickError::NoDevices)
    } else {
        pick_device(devices)
    }
}

/// How a device stands in a list to choose from.
pub open spec fn list_line(device: crate::discovery::DeviceView) -> Seq<char> {
    match device.model {
        Some(model) => "  - "@ + device.friendly_name + " ("@ + model + ")"@,
        None => "  - "@ + device.friendly_name,
    }
}

/// How a device stands in a list to choose from.
pub fn device_line(device: &Device) -> (line: String)
    ensures
        line@ == list_line(device@),
{
    let mut line: String = "  - ".to_owned();
    line.append(device.friendly_name.as_str());
    match &device.model {
        Some(model) => {
            line.append(" (");
            line.append(model.as_str());
            line.append(")");
        },
        None => {},
    }
    line
}

/// The app for a device.
pub fn mode_for(device: &Device) -> (mode: StreamMode)
    ensures
        mode == (if device.is_audio_only {
            StreamMode::AudioOnly
        } else {
            StreamMode::AudioVideo
        }),
{
    if device.is_audio_only {
        StreamMode::AudioOnly
    } else {
        StreamMode::AudioVideo
    }
}

/// Whether the receiver accepted the audio stream, which is the one with index 0.
pub fn accepts_audio(answer: &StreamAnswer) -> (accepts: bool)
    ensures
        accepts == answer.send_indexes@.contains(0),
{
    let mut i: usize = 0;
    while i < answer.send_indexes.len()
        invariant
            i <= answer.send_indexes@.len(),
            forall|k: int| 0 <= k < i ==> answer.send_indexes@[k] != 0,
        decreases answer.send_indexes@.len() - i,
    {
        if answer.send_indexes[i] == 0 {
            return true;
        }
        i = i + 1;
    }
    false
}

/// Numbers with a comma between each two.
pub open spec fn comma_separated(numbers: Seq<u64>) -> Seq<char>
    decreases numbers.len(),
{
    if numbers.len() == 0 {
        Seq::empty()
    } else if numbers.len() == 1 {
        crate::text::decimal(numbers[0] as nat)
    } else {
        comma_separated(numbers.drop_last()) + ", "@ + crate::text::decimal(numbers.last() as nat)
    }
}

/// What is wrong when the receiver did not accept the audio stream.
pub open spec fn refusal(send_indexes: Seq<u64>) -> Seq<char> {
    "Chromecast did not accept the audio stream (sendIndexes=["@ + comma_separated(send_indexes)
        + "])"@
}

/// What is wrong when the receiver did not accept the audio stream, in words.
pub fn refusal_message(answer: &StreamAnswer) -> (text: String)
    ensures
        text@ == refusal(answer.send_indexes@),
{
    let ghost numbers = answer.send_indexes@;
    let ghost start = "Chromecast did not accept the audio stream (sendIndexes=["@;
    let mut text: String =
        "Chromecast did not accept the audio stream (sendIndexes=[".to_owned();
    let mut i: usize = 0;
    assert(text@ =~= start + comma_separated(numbers.take(0)));
    while i < answer.send_indexes.len()
        invariant
            numbers == answer.send_indexes@,
            i <= numbers.len(),
            text@ == start + comma_separated(numbers.take(i as int)),
        decreases numbers.len() - i,
    {
        let ghost before = text@;
        let ghost so_far = comma_separated(numbers.take(i as int));
        let ghost next = crate::text::decimal(numbers[i as int] as nat);
        if i > 0 {
            text.append(", ");
        }
        push_decimal(&mut text, answer.send_indexes[i]);
        proof {
            assert(numbers.take(i + 1).drop_last() =~= numbers.take(i as int));
            assert(numbers.take(i + 1).last() == numbers[i as int]);
            if i == 0 {
                assert(so_far =~= Seq::<char>::empty());
                assert(text@ =~= start + comma_separated(numbers.take(1)));
            } else {
                assert(text@ =~= start + (so_far + ", "@ + next));
            }
        }
        i = i + 1;
    }
    assert(numbers.take(i as int) =~= numbers);
    text.append("])");
    text
}

/// Where the stream goes and how it is labelled and encrypted, as device, offer and answer
/// say it.
pub fn rtp_config(device: &Device, offer: &StreamOffer, answer: &StreamAnswer) -> (config: Config)
    ensures
        config.chromecast_host@ == device.host@,
        config.udp_port == answer.udp_port,
        config.ssrc == offer.ssrc,
        config.payload_type == RTP_PAYLOAD_TYPE,
        config.aes_key == offer.aes_key,
        config.aes_iv_mask == offer.aes_iv_mask,
{
    Config {
        chromecast_host: device.host.as_str().to_owned(),
        udp_port: answer.udp_port,
        ssrc: offer.ssrc,
        payload_type: RTP_PAYLOAD_TYPE,
        aes_key: offer.aes_key,
        aes_iv_mask: offer.aes_iv_mask,
    }
}

/// Why a session is over.
#[derive(Debug, Clone, Copy, PartialEq, Eq, Structural)]
pub enum EndReason {
    ConnectionLost,
    ClosedByReceiver,
}

impl EndReason {
    /// The reason, in words.
    pub open spec fn words(self) -> Seq<char> {
        match self {
            EndReason::ConnectionLost => "Connection to Chromecast lost"@,
            EndReason::ClosedByReceiver => "Receiver closed the mirroring session"@,
        }
    }

    /// The reason, in words.
    pub fn message(self) -> (text: &'static str)
        ensures
            text@ == self.words(),
    {
        match self {
            EndReason::ConnectionLost => "Connection to Chromecast lost",
            EndReason::ClosedByReceiver => "Receiver closed the mirroring session",
        }
    }
}

/// Whether a message closes the session: the app itself closes its virtual connection.
pub open spec fn closes_session(message: MessageView, transport: Seq<char>) -> bool {
    &&& message.namespace == NS_CONNECTION@
    &&& message.source == transport
    &&& crate::cast_channel::payload_has_type(message.payload, "CLOSE"@)
}

/// How what is received during the session ends it, if it does.
pub open spec fn ending(received: Received, transport: Seq<char>) -> Option<EndReason> {
    match received {
        Received::Message(message) => if closes_session(message@, transport) {
            Some(EndReason::ClosedByReceiver)
        } else {
            None
        },
        Received::Nothing => None,
        Received::Disconnected => Some(EndReason::ConnectionLost),
    }
}

fn is_close(message: &CastMessage, transport: &str) -> (is: bool)
    ensures
        is == closes_session(message@, transport@),
{
    same_text(message.namespace.as_str(), NS_CONNECTION) && same_text(
        message.source.as_str(),
        transport,
    ) && payload_type_is(message.payload.as_str(), "CLOSE")
}

/// Takes in what is received during the session.
pub fn session_end(received: &Received, transport: &str) -> (reason: Option<EndReason>)
    ensures
        reason == ending(*received, transport@),
{
    match received {
        Received::Message(message) => {
            if is_close(message, transport) {
                Some(EndReason::ClosedByReceiver)
            } else {
                None
            }
        },
        Received::Nothing => None,
        Received::Disconnected => Some(EndReason::ConnectionLost),
    }
}

/// No one but the app can close the session: messages from other senders never do.
pub proof fn only_the_app_closes_the_session(message: CastMessage, transport: Seq<char>)
    requires
        message@.source != transport || message@.namespace != NS_CONNECTION@,
    ensures
        ending(Received::Message(message), transport) is None,
{
}

/// The receiver decrypts a frame to what was sent: the stream is encrypted with the secrets
/// of the offer, and a frame of the encrypted stream, encrypted again with them, is the frame.
pub proof fn offered_secrets_decrypt_the_stream(
    offer: StreamOffer,
    config: Config,
    frame: Seq<u8>,
    frame_id: u32,
)
    requires
        config.aes_key == offer.aes_key,
        config.aes_iv_mask == offer.aes_iv_mask,
    ensures
        ({
            let encrypted = crate::cast_rtp::crypted(
                config.aes_key@,
                config.aes_iv_mask@,
                frame,
                frame_id,
            );
            let packet = crate::cast_rtp::packet(
                config.ssrc,
                config.payload_type,
                encrypted,
                frame_id,
            );
            crate::cast_rtp::crypted(
                offer.aes_key@,
                offer.aes_iv_mask@,
                packet.skip(19),
                frame_id,
            ) == frame
        }),
{
    let encrypted = crate::cast_rtp::crypted(
        config.aes_key@,
        config.aes_iv_mask@,
        frame,
        frame_id,
    );
    crate::cast_rtp::packet_carries_payload(
        config.ssrc,
        config.payload_type,
        encrypted,
        frame_id,
    );
    crate::cast_rtp::encrypting_twice_decrypts(
        config.aes_key@,
        config.aes_iv_mask@,
        frame,
        frame_id,
    );
}

/// The session ends when the connection is lost, and when the app closes its own connection: by
/// any message on the connection namespace from its transport whose payload is an object of type
/// CLOSE, whatever else that object holds and however it is written. Nothing else ends it.
pub proof fn sessions_end_when_the_app_closes(
    received: &Received,
    transport: &str,
    reason: Option<EndReason>,
)
    requires
        call_ensures(session_end, (received, transport), reason),
    ensures
        received is Disconnected ==> reason == Some(EndReason::ConnectionLost),
        received is Nothing ==> reason is None,
        received matches Received::Message(message) ==> {
            let parsed = crate::json::parsed(message@.payload);
            let closes = message@.namespace == "urn:x-cast:com.google.cast.tp.connection"@
                && message@.source == transport@ && parsed is Some && parsed->0 is Object
                && parsed->0->Object_0.dom().contains("type"@) && parsed->0->Object_0["type"@]
                == crate::json::Json::Text("CLOSE"@);
            reason == (if closes {
                Some(EndReason::ClosedByReceiver)
            } else {
                None
            })
        },
{
}

/// The packets of a stream are those of the stream that was offered: they carry the SSRC and the
/// payload type that the offer names, and are encrypted with the secrets that it names. They go
/// to the device, to the port that it answered with.
pub proof fn packets_belong_to_the_offered_stream(
    ids: &mut crate::mirroring::RequestIds,
    sender_id: &str,
    transport_id: &str,
    offer: &StreamOffer,
    message: CastMessage,
    stream: crate::json::Json,
    device: &Device,
    answer: &StreamAnswer,
    config: Config,
    sender: crate::cast_rtp::CastRtpSender,
    encrypted: &[u8],
    frame_id: u32,
    bytes: Vec<u8>,
)
    requires
        call_ensures(crate::mirroring::send_offer, (ids, sender_id, transport_id, offer), message),
        crate::mirroring::offers_one_stream(
            crate::json::parsed(message@.payload)->0,
            old(ids).next,
            stream,
        ),
        call_ensures(rtp_config, (device, offer, answer), config),
        call_ensures(crate::cast_rtp::CastRtpSender::new, (config,), sender),
        call_ensures(
            crate::cast_rtp::CastRtpSender::build_packet,
            (&sender, encrypted, frame_id),
            bytes,
        ),
    ensures
        config.chromecast_host@ == device@.host,
        config.udp_port == answer@.udp_port,
        stream.unsigned_at("ssrc"@) == Some(
            crate::bytes::big_endian(bytes@.subrange(8, 12)) as u64,
        ),
        stream.unsigned_at("rtpPayloadType"@) == Some((bytes@[1] % 0x80) as u64),
        stream.text_at("aesKey"@) == Some(crate::bytes::hex_text(sender.config().aes_key@)),
        stream.text_at("aesIvMask"@) == Some(crate::bytes::hex_text(sender.config().aes_iv_mask@)),
{
    let document = crate::json::parsed(message@.payload)->0;
    crate::mirroring::offers_describe_their_stream(ids, sender_id, transport_id, offer, message);
    let offered = choose|offered: crate::json::Json| #[trigger]
        crate::mirroring::offers_one_stream(document, old(ids).next, offered)
            && crate::mirroring::is_opus_stream(offered) && offered.unsigned_at("ssrc"@) == Some(
            offer.ssrc as u64,
        ) && offered.text_at("aesKey"@) == Some(crate::bytes::hex_text(offer.aes_key@))
            && offered.text_at("aesIvMask"@) == Some(crate::bytes::hex_text(offer.aes_iv_mask@));
    assert(seq![offered][0] == seq![stream][0]);
    crate::cast_rtp::packets_are_laid_out_field_by_field(&sender, encrypted, frame_id, bytes);
}

/// The audio is accepted exactly if its index, 0, is anywhere among the accepted ones.
pub proof fn audio_is_accepted_by_its_index(answer: &StreamAnswer, accepts: bool)
    requires
        call_ensures(accepts_audio, (answer,), accepts),
    ensures
        accepts <==> exists|i: int|
            0 <= i < answer.send_indexes@.len() && #[trigger] answer.send_indexes@[i] == 0,
{
}

/// Speakers get the audio app, all other devices the other.
pub proof fn speakers_get_the_audio_app(device: &Device, mode: StreamMode, app: &'static str)
    requires
        call_ensures(mode_for, (device,), mode),
        call_ensures(StreamMode::app_id, (mode,), app),
    ensures
        app@ == (if device.is_audio_only {
            "85CDB22F"@
        } else {
            "0F5096E8"@
        }),
{
}

/// A device is chosen exactly if it is the only one; of several all are listed to choose from.
pub proof fn only_a_single_device_is_chosen(
    devices: Vec<Device>,
    picked: Result<Device, PickError>,
    chosen: Result<Device, PickError>,
)
    requires
        call_ensures(pick_device, (devices,), picked),
        call_ensures(choose_device, (devices,), chosen),
    ensures
        picked is Ok <==> devices@.len() == 1,
        picked matches Ok(device) ==> devices@ == seq![device],
        picked matches Err(PickError::Ambiguous(list)) ==> list@ == devices@,
        !(picked matches Err(PickError::NoDevices)),
        chosen is Ok <==> devices@.len() == 1,
        chosen matches Ok(device) ==> devices@ == seq![device],
        chosen matches Err(PickError::Ambiguous(list)) ==> list@ == devices@ && list@.len() > 1,
        (chosen matches Err(PickError::NoDevices)) <==> devices@.len() == 0,
{
    if devices@.len() == 1 {
        assert(devices@ =~= seq![devices@[0]]);
    }
}

/// Numbers in a row stand with a comma and a space between each two, each in decimal.
pub proof fn numbers_are_separated_by_commas(first: Seq<u64>, second: Seq<u64>, n: u64)
    requires
        first.len() > 0,
        second.len() > 0,
    ensures
        comma_separated(first + second) == comma_separated(first) + ", "@ + comma_separated(second),
        comma_separated(seq![n]) == crate::text::decimal(n as nat),
        comma_separated(Seq::<u64>::empty()) == Seq::<char>::empty(),
    decreases second.len(),
{
    reveal_with_fuel(comma_separated, 2);
    let all = first + second;
    assert(all.last() == second.last());
    if second.len() == 1 {
        assert(all.drop_last() =~= first);
        assert(comma_separated(all) =~= comma_separated(first) + ", "@ + comma_separated(second));
    } else {
        numbers_are_separated_by_commas(first, second.drop_last(), n);
        assert(all.drop_last() =~= first + second.drop_last());
        assert(comma_separated(all) =~= comma_separated(first) + ", "@ + comma_separated(second));
    }
}

/// A line of the list of devices holds the name of the device, and the model in brackets if it
/// is known.
pub proof fn lines_name_device_and_model(device: &Device, line: String)
    requires
        call_ensures(device_line, (device,), line),
    ensures
        line@.take(4) == "  - "@,
        line@.subrange(4, 4 + device@.friendly_name.len() as int) == device@.friendly_name,
        device@.model is None ==> line@.len() == 4 + device@.friendly_name.len(),
        device@.model matches Some(model) ==> line@.skip(4 + device@.friendly_name.len() as int)
            == " ("@ + model + ")"@,
{
    reveal_strlit("  - ");
    let n = device@.friendly_name.len() as int;
    assert(line@.take(4) =~= "  - "@);
    assert(line@.subrange(4, 4 + n) =~= device@.friendly_name);
    if device@.model is Some {
        assert(line@.skip(4 + n) =~= " ("@ + device@.model->0 + ")"@);
    }
}

/// What is said of a refusal lists the streams that were accepted instead.
pub proof fn refusals_list_what_was_accepted(answer: &StreamAnswer, text: String)
    requires
        call_ensures(refusal_message, (answer,), text),
    ensures
        text@ == "Chromecast did not accept the audio stream (sendIndexes=["@ + comma_separated(
            answer@.send_indexes,
        ) + "])"@,
{
}

} // verus!
