//! LAUNCH, OFFER and ANSWER over the plain form of the channel. Any status that lists the app
//! counts as the reply to a launch; it gives the transport, which is the destination of the
//! OFFER.

use vstd::prelude::*;

use crate::bytes::hex_encode;
use crate::cast_channel::json_message;
use crate::cast_channel::CastMessage;
use crate::cast_channel::MessageView;
use crate::cast_channel::NS_RECEIVER;
use crate::cast_channel::NS_WEBRTC;
use crate::castv2::PLATFORM;
use crate::castv2::SENDER_LOCAL;
use crate::json;
use crate::json::Json;
use crate::mirroring::find_app;
use crate::mirroring::is_text;
use crate::mirroring::random_block;
use crate::mirroring::random_u32;
use crate::mirroring::read_answer_reply;
use crate::mirroring::read_launch_reply;
use crate::mirroring::ssrc_from;
use crate::mirroring::time_base;
use crate::mirroring::wrap_stream;
use crate::mirroring::AnswerBody;
use crate::mirroring::AnswerReply;
use crate::mirroring::AnswerReplyView;
use crate::mirroring::AnswerView;
use crate::mirroring::LaunchReply;
use crate::mirroring::LaunchReplyView;
use crate::mirroring::RequestIds;
use crate::mirroring::StreamAnswer;
use crate::mirroring::StreamMode;
use crate::mirroring::POLL_INTERVAL_NS;
use crate::text::same_text;
use crate::wait::next_poll;

verus! {

/// An offered audio stream.
pub struct StreamOffer {
    pub ssrc: u32,
    pub aes_key: [u8; 16],
    pub aes_iv_mask: [u8; 16],
    pub codec: &'static str,
    pub sample_rate: u32,
    pub channels: u32,
    pub bit_rate: i32,
    pub rtp_payload_type: u8,
    pub target_delay_ms: u32,
}

impl StreamOffer {
    /// Whether the stream is stereo Opus at 48 kHz and 128 kbit/s, without delay.
    pub open spec fn is_standard(self) -> bool {
        &&& self.codec@ == "opus"@
        &&& self.sample_rate == 48_000
        &&& self.channels == 2
        &&& self.bit_rate == 128_000
        &&& self.rtp_payload_type == 127
        &&& self.target_delay_ms == 0
    }

    /// A standard stream with given secrets, labelled by a random number.
    pub fn from_random(raw: u32, aes_key: [u8; 16], aes_iv_mask: [u8; 16]) -> (offer: StreamOffer)
        ensures
            offer.ssrc == crate::mirroring::ssrc_of(raw),
            offer.aes_key == aes_key,
            offer.aes_iv_mask == aes_iv_mask,
            offer.is_standard(),
    {
        StreamOffer {
            ssrc: ssrc_from(raw),
            aes_key,
            aes_iv_mask,
            codec: "opus",
            sample_rate: 48_000,
            channels: 2,
            bit_rate: 128_000,
            rtp_payload_type: 127,
            target_delay_ms: 0,
        }
    }
}

impl Default for StreamOffer {
    /// A standard stream with fresh secrets.
    fn default() -> (offer: StreamOffer)
        ensures
            exists|raw: u32| offer.ssrc == #[trigger] crate::mirroring::ssrc_of(raw),
            offer.is_standard(),
    {
        let aes_key: [u8; 16] = random_block();
        let aes_iv_mask: [u8; 16] = random_block();
        let raw: u32 = random_u32();
        StreamOffer::from_random(raw, aes_key, aes_iv_mask)
    }
}

/// The request to launch an app.
pub open spec fn launch_document(request_id: u64, app: Seq<char>) -> Json {
    Json::Object(
        map![
            "type"@ => Json::Text("LAUNCH"@),
            "requestId"@ => Json::Unsigned(request_id),
            "appId"@ => Json::Text(app),
        ],
    )
}

/// The audio stream that is offered.
pub open spec fn stream_document(offer: StreamOffer) -> Json {
    Json::Object(
        map![
            "index"@ => Json::Unsigned(0),
            "type"@ => Json::Text("audio_source"@),
            "codecName"@ => Json::Text(offer.codec@),
            "rtpProfile"@ => Json::Text("cast"@),
            "rtpPayloadType"@ => Json::Unsigned(offer.rtp_payload_type as u64),
            "ssrc"@ => Json::Unsigned(offer.ssrc as u64),
            "targetDelay"@ => Json::Unsigned(offer.target_delay_ms as u64),
            "aesKey"@ => Json::Text(crate::bytes::hex_text(offer.aes_key@)),
            "aesIvMask"@ => Json::Text(crate::bytes::hex_text(offer.aes_iv_mask@)),
            "timeBase"@ => Json::Text("1/"@ + crate::text::decimal(offer.sample_rate as nat)),
            "bitRate"@ => crate::mirroring::number(offer.bit_rate as int),
            "sampleRate"@ => Json::Unsigned(offer.sample_rate as u64),
            "channels"@ => Json::Unsigned(offer.channels as u64),
        ],
    )
}

/// Builds the request to launch an app.
pub fn build_launch_payload(request_id: u64, app_id: &str) -> (payload: serde_json::Value)
    ensures
        json::document(payload) == launch_document(request_id, app_id@),
        json::document(payload).is_plain(json::max_levels()),
        json::document(payload).nests_within(json::max_levels()),
{
    let mut payload = json::new_object();
    json::set(&mut payload, "type", json::text("LAUNCH"));
    json::set(&mut payload, "requestId", json::unsigned(request_id));
    json::set(&mut payload, "appId", json::text(app_id));
    proof {
        reveal_with_fuel(Json::is_plain, 2);
        assert(json::document(payload).is_plain(1));
        json::document(payload).plain_allows_more(1, json::max_levels());
    }
    payload
}

fn build_stream(offer: &StreamOffer) -> (stream: serde_json::Value)
    ensures
        json::document(stream) == stream_document(*offer),
        json::document(stream).is_plain(1),
{
    let rate: String = time_base(offer.sample_rate);
    let key: String = hex_encode(offer.aes_key.as_slice());
    let mask: String = hex_encode(offer.aes_iv_mask.as_slice());
    let mut stream = json::new_object();
    json::set(&mut stream, "index", json::unsigned(0));
    json::set(&mut stream, "type", json::text("audio_source"));
    json::set(&mut stream, "codecName", json::text(offer.codec));
    json::set(&mut stream, "rtpProfile", json::text("cast"));
    json::set(&mut stream, "rtpPayloadType", json::unsigned(offer.rtp_payload_type as u64));
    json::set(&mut stream, "ssrc", json::unsigned(offer.ssrc as u64));
    json::set(&mut stream, "targetDelay", json::unsigned(offer.target_delay_ms as u64));
    json::set(&mut stream, "aesKey", json::text(key.as_str()));
    json::set(&mut stream, "aesIvMask", json::text(mask.as_str()));
    json::set(&mut stream, "timeBase", json::text(rate.as_str()));
    json::set(&mut stream, "bitRate", json::integer(offer.bit_rate as i64));
    json::set(&mut stream, "sampleRate", json::unsigned(offer.sample_rate as u64));
    json::set(&mut stream, "channels", json::unsigned(offer.channels as u64));
    proof {
        reveal_with_fuel(Json::is_plain, 2);
    }
    stream
}

/// Builds the offer of the audio stream.
pub fn build_offer_payload(request_id: u64, offer: &StreamOffer) -> (payload: serde_json::Value)
    ensures
        json::document(payload) == crate::mirroring::offer_document(
            request_id,
            stream_document(*offer),
        ),
        json::document(payload).is_plain(json::max_levels()),
        json::document(payload).nests_within(json::max_levels()),
{
    wrap_stream(request_id, build_stream(offer))
}

/// What a message on the receiver namespace means to whoever waits for an app.
#[derive(Debug)]
pub enum LaunchVerdict {
    Unrelated,
    /// The app runs, with this transport.
    Ready(String),
    NoTransportId,
    Rejected,
}

/// What a `LaunchVerdict` holds.
pub enum LaunchVerdictView {
    Unrelated,
    Ready(Seq<char>),
    NoTransportId,
    Rejected,
}

impl View for LaunchVerdict {
    type V = LaunchVerdictView;

    open spec fn view(&self) -> LaunchVerdictView {
        match self {
            LaunchVerdict::Unrelated => LaunchVerdictView::Unrelated,
            LaunchVerdict::Ready(transport_id) => LaunchVerdictView::Ready(transport_id@),
            LaunchVerdict::NoTransportId => LaunchVerdictView::NoTransportId,
            LaunchVerdict::Rejected => LaunchVerdictView::Rejected,
        }
    }
}

/// What a message means to whoever waits for an app, whatever request it replies to.
pub open spec fn launch_verdict(reply: LaunchReplyView, app: Seq<char>) -> LaunchVerdictView {
    if reply.kind == Some("RECEIVER_STATUS"@) {
        match crate::mirroring::first_app(reply.applications, app) {
            None => LaunchVerdictView::Unrelated,
            Some(status) => match status.transport_id {
                None => LaunchVerdictView::NoTransportId,
                Some(transport_id) => LaunchVerdictView::Ready(transport_id),
            },
        }
    } else if reply.kind == Some("LAUNCH_ERROR"@) {
        LaunchVerdictView::Rejected
    } else {
        LaunchVerdictView::Unrelated
    }
}

/// Decides what a message means to whoever waits for an app.
pub fn judge_launch(reply: &LaunchReply, app_id: &str) -> (verdict: LaunchVerdict)
    ensures
        verdict@ == launch_verdict(reply@, app_id@),
{
    if is_text(&reply.kind, "RECEIVER_STATUS") {
        match find_app(&reply.applications, app_id) {
            Some(i) => match &reply.applications[i].transport_id {
                Some(id) => LaunchVerdict::Ready(id.as_str().to_owned()),
                None => LaunchVerdict::NoTransportId,
            },
            None => LaunchVerdict::Unrelated,
        }
    } else if is_text(&reply.kind, "LAUNCH_ERROR") {
        LaunchVerdict::Rejected
    } else {
        LaunchVerdict::Unrelated
    }
}

/// Why no app was launched.
#[derive(Debug)]
pub enum LaunchError {
    NoTransportId,
    /// The receiver said no, in these words.
    Rejected(String),
    TimedOut,
}

/// What a `LaunchError` holds.
pub enum LaunchErrorView {
    NoTransportId,
    Rejected(Seq<char>),
    TimedOut,
}

impl View for LaunchError {
    type V = LaunchErrorView;

    open spec fn view(&self) -> LaunchErrorView {
        match self {
            LaunchError::NoTransportId => LaunchErrorView::NoTransportId,
            LaunchError::Rejected(reply) => LaunchErrorView::Rejected(reply@),
            LaunchError::TimedOut => LaunchErrorView::TimedOut,
        }
    }
}

impl LaunchErrorView {
    /// What went wrong, in words.
    pub open spec fn words(self) -> Seq<char> {
        match self {
            LaunchErrorView::NoTransportId => "no transportId"@,
            LaunchErrorView::Rejected(reply) => "Receiver rejected LAUNCH: "@ + reply,
            LaunchErrorView::TimedOut => "Timeout launching mirroring app"@,
        }
    }
}

impl LaunchError {
    /// What went wrong, in words.
    pub fn message(&self) -> (text: String)
        ensures
            text@ == self@.words(),
    {
        match self {
            LaunchError::NoTransportId => "no transportId".to_owned(),
            LaunchError::Rejected(reply) => {
                let mut text: String = "Receiver rejected LAUNCH: ".to_owned();
                text.append(reply.as_str());
                text
            },
            LaunchError::TimedOut => "Timeout launching mirroring app".to_owned(),
        }
    }
}

/// The app for a device that does or does not play audio alone.
pub open spec fn mode_for(is_audio_only: bool) -> StreamMode {
    if is_audio_only {
        StreamMode::AudioOnly
    } else {
        StreamMode::AudioVideo
    }
}

/// Asks the receiver to launch the mirroring app: the app's id, and what to send.
pub fn launch_mirroring(ids: &mut RequestIds, is_audio_only: bool) -> (started: (
    &'static str,
    CastMessage,
))
    ensures
        started.0@ == mode_for(is_audio_only).app(),
        started.1@ == (MessageView {
            source: SENDER_LOCAL@,
            destination: PLATFORM@,
            namespace: NS_RECEIVER@,
            payload: json::written(launch_document(old(ids).next, started.0@)),
        }),
        json::parsed(started.1@.payload) == Some(launch_document(old(ids).next, started.0@)),
        final(ids).next == old(ids).next.wrapping_add(1),
{
    let mode: StreamMode = if is_audio_only {
        StreamMode::AudioOnly
    } else {
        StreamMode::AudioVideo
    };
    let app_id: &'static str = mode.app_id();
    let payload = build_launch_payload(ids.new_request_id(), app_id);
    (app_id, json_message(SENDER_LOCAL, PLATFORM, NS_RECEIVER, &payload))
}

/// How long to look for the app next, when this much of the time has gone by.
pub fn next_launch_poll(elapsed_ns: u64, timeout_ns: u64) -> (look: Result<u64, LaunchError>)
    ensures
        match crate::wait::poll(elapsed_ns, timeout_ns, POLL_INTERVAL_NS) {
            Some(ns) => look == Ok::<u64, LaunchError>(ns),
            None => look matches Err(error) && error@ == LaunchErrorView::TimedOut,
        },
{
    match next_poll(elapsed_ns, timeout_ns, POLL_INTERVAL_NS) {
        Some(ns) => Ok(ns),
        None => Err(LaunchError::TimedOut),
    }
}

/// What a message that arrives while the app is awaited comes to.
pub open spec fn launch_step(message: MessageView, app: Seq<char>) -> Option<
    Result<Seq<char>, LaunchErrorView>,
> {
    if message.namespace != NS_RECEIVER@ {
        None
    } else {
        match json::parsed(message.payload) {
            None => None,
            Some(document) => match launch_verdict(
                crate::mirroring::launch_reply_of(document),
                app,
            ) {
                LaunchVerdictView::Unrelated => None,
                LaunchVerdictView::Ready(transport_id) => Some(Ok(transport_id)),
                LaunchVerdictView::NoTransportId => Some(Err(LaunchErrorView::NoTransportId)),
                LaunchVerdictView::Rejected => Some(
                    Err(LaunchErrorView::Rejected(message.payload)),
                ),
            },
        }
    }
}

/// What a step of waiting for an app came to, if it came to anything.
pub open spec fn launch_outcome(outcome: Option<Result<String, LaunchError>>) -> Option<
    Result<Seq<char>, LaunchErrorView>,
> {
    match outcome {
        Some(Ok(transport_id)) => Some(Ok(transport_id@)),
        Some(Err(error)) => Some(Err(error@)),
        None => None,
    }
}

/// Takes in a message while the app is awaited. `None` means: keep waiting.
pub fn on_launch_message(message: &CastMessage, app_id: &str) -> (outcome: Option<
    Result<String, LaunchError>,
>)
    ensures
        launch_outcome(outcome) == launch_step(message@, app_id@),
{
    if !same_text(message.namespace.as_str(), NS_RECEIVER) {
        return None;
    }
    let value = match json::parse(message.payload.as_str()) {
        Some(value) => value,
        None => {
            return None;
        },
    };
    match judge_launch(&read_launch_reply(&value), app_id) {
        LaunchVerdict::Unrelated => None,
        LaunchVerdict::Ready(transport_id) => Some(Ok(transport_id)),
        LaunchVerdict::NoTransportId => Some(Err(LaunchError::NoTransportId)),
        LaunchVerdict::Rejected => Some(
            Err(LaunchError::Rejected(message.payload.as_str().to_owned())),
        ),
    }
}

/// What an ANSWER lacks.
#[derive(Debug, Clone, Copy, PartialEq, Eq, Structural)]
pub enum AnswerFault {
    Rejected,
    NoAnswer,
    NoUdpPort,
}

/// What an ANSWER comes to. Of the port only the low 16 bits count.
pub open spec fn answer_verdict(reply: AnswerReplyView) -> Result<AnswerView, AnswerFault> {
    if reply.result != Some("ok"@) {
        Err(AnswerFault::Rejected)
    } else {
        match reply.answer {
            None => Err(AnswerFault::NoAnswer),
            Some(body) => match body.udp_port {
                None => Err(AnswerFault::NoUdpPort),
                Some(port) => Ok(
                    AnswerView {
                        udp_port: (port % 0x1_0000) as u16,
                        send_indexes: body.send_indexes,
                    },
                ),
            },
        }
    }
}

/// Decides what an ANSWER comes to.
pub fn judge_answer(reply: AnswerReply) -> (outcome: Result<StreamAnswer, AnswerFault>)
    ensures
        crate::mirroring::answer_outcome(outcome) == answer_verdict(reply@),
{
    if !is_text(&reply.result, "ok") {
        return Err(AnswerFault::Rejected);
    }
    let body: AnswerBody = match reply.answer {
        Some(body) => body,
        None => {
            return Err(AnswerFault::NoAnswer);
        },
    };
    match body.udp_port {
        Some(port) => Ok(
            StreamAnswer {
                udp_port: (port % 0x1_0000) as u16,
                send_indexes: body.send_indexes,
            },
        ),
        None => Err(AnswerFault::NoUdpPort),
    }
}

/// Why no stream was agreed on.
#[derive(Debug)]
pub enum OfferError {
    /// The reply is not JSON.
    Undecodable,
    /// The receiver said no, in these words.
    Rejected(String),
    NoAnswer,
    NoUdpPort,
    TimedOut,
}

/// What an `OfferError` holds.
pub enum OfferErrorView {
    Undecodable,
    Rejected(Seq<char>),
    NoAnswer,
    NoUdpPort,
    TimedOut,
}

impl View for OfferError {
    type V = OfferErrorView;

    open spec fn view(&self) -> OfferErrorView {
        match self {
            OfferError::Undecodable => OfferErrorView::Undecodable,
            OfferError::Rejected(reply) => OfferErrorView::Rejected(reply@),
            OfferError::NoAnswer => OfferErrorView::NoAnswer,
            OfferError::NoUdpPort => OfferErrorView::NoUdpPort,
            OfferError::TimedOut => OfferErrorView::TimedOut,
        }
    }
}

impl OfferErrorView {
    /// What went wrong, in words.
    pub open spec fn words(self) -> Seq<char> {
        match self {
            OfferErrorView::Undecodable => "decode webrtc payload"@,
            OfferErrorView::Rejected(reply) => "OFFER rejected: "@ + reply,
            OfferErrorView::NoAnswer => "no `answer` field"@,
            OfferErrorView::NoUdpPort => "no udpPort"@,
            OfferErrorView::TimedOut => "Timeout waiting for ANSWER from Chromecast"@,
        }
    }
}

impl OfferError {
    /// What went wrong, in words.
    pub fn message(&self) -> (text: String)
        ensures
            text@ == self@.words(),
    {
        match self {
            OfferError::Undecodable => "decode webrtc payload".to_owned(),
            OfferError::Rejected(reply) => {
                let mut text: String = "OFFER rejected: ".to_owned();
                text.append(reply.as_str());
                text
            },
            OfferError::NoAnswer => "no `answer` field".to_owned(),
            OfferError::NoUdpPort => "no udpPort".to_owned(),
            OfferError::TimedOut => "Timeout waiting for ANSWER from Chromecast".to_owned(),
        }
    }
}

/// Offers the stream to the app: what to send. An ANSWER has to be waited for.
pub fn send_offer(ids: &mut RequestIds, transport_id: &str, offer: &StreamOffer) -> (message:
    CastMessage)
    ensures
        ({
            let document = crate::mirroring::offer_document(
                old(ids).next,
                stream_document(*offer),
            );
            &&& message@ == (MessageView {
                source: SENDER_LOCAL@,
                destination: transport_id@,
                namespace: NS_WEBRTC@,
                payload: json::written(document),
            })
            &&& json::parsed(message@.payload) == Some(document)
        }),
        final(ids).next == old(ids).next.wrapping_add(1),
{
    let payload = build_offer_payload(ids.new_request_id(), offer);
    json_message(SENDER_LOCAL, transport_id, NS_WEBRTC, &payload)
}

/// How long to look for an ANSWER next, when this much of the time has gone by.
pub fn next_answer_poll(elapsed_ns: u64, timeout_ns: u64) -> (look: Result<u64, OfferError>)
    ensures
        match crate::wait::poll(elapsed_ns, timeout_ns, POLL_INTERVAL_NS) {
            Some(ns) => look == Ok::<u64, OfferError>(ns),
            None => look matches Err(error) && error@ == OfferErrorView::TimedOut,
        },
{
    match next_poll(elapsed_ns, timeout_ns, POLL_INTERVAL_NS) {
        Some(ns) => Ok(ns),
        None => Err(OfferError::TimedOut),
    }
}

/// What a message that arrives while an ANSWER is awaited comes to. On this namespace
/// everything has to be JSON.
pub open spec fn offer_step(message: MessageView) -> Option<Result<AnswerView, OfferErrorView>> {
    if message.namespace != NS_WEBRTC@ {
        None
    } else {
        match json::parsed(message.payload) {
            None => Some(Err(OfferErrorView::Undecodable)),
            Some(document) => {
                let reply = crate::mirroring::answer_reply_of(document);
                if reply.kind != Some("ANSWER"@) {
                    None
                } else {
                    match answer_verdict(reply) {
                        Ok(answer) => Some(Ok(answer)),
                        Err(AnswerFault::Rejected) => Some(
                            Err(OfferErrorView::Rejected(message.payload)),
                        ),
                        Err(AnswerFault::NoAnswer) => Some(Err(OfferErrorView::NoAnswer)),
                        Err(AnswerFault::NoUdpPort) => Some(Err(OfferErrorView::NoUdpPort)),
                    }
                }
            },
        }
    }
}

/// What a step of waiting for an ANSWER came to, if it came to anything.
pub open spec fn offer_outcome(outcome: Option<Result<StreamAnswer, OfferError>>) -> Option<
    Result<AnswerView, OfferErrorView>,
> {
    match outcome {
        Some(Ok(answer)) => Some(Ok(answer@)),
        Some(Err(error)) => Some(Err(error@)),
        None => None,
    }
}

/// Takes in a message while an ANSWER is awaited. `None` means: keep waiting.
pub fn on_answer_message(message: &CastMessage) -> (outcome: Option<
    Result<StreamAnswer, OfferError>,
>)
    ensures
        offer_outcome(outcome) == offer_step(message@),
{
    if !same_text(message.namespace.as_str(), NS_WEBRTC) {
        return None;
    }
    let value = match json::parse(message.payload.as_str()) {
        Some(value) => value,
        None => {
            return Some(Err(OfferError::Undecodable));
        },
    };
    let reply: AnswerReply = read_answer_reply(&value);
    if !is_text(&reply.kind, "ANSWER") {
        return None;
    }
    match judge_answer(reply) {
        Ok(answer) => Some(Ok(answer)),
        Err(AnswerFault::Rejected) => Some(
            Err(OfferError::Rejected(message.payload.as_str().to_owned())),
        ),
        Err(AnswerFault::NoAnswer) => Some(Err(OfferError::NoAnswer)),
        Err(AnswerFault::NoUdpPort) => Some(Err(OfferError::NoUdpPort)),
    }
}

proof fn lemma_keys()
    ensures
        "index"@.len() == 5,
        "type"@.len() == 4,
        "codecName"@.len() == 9,
        "rtpProfile"@.len() == 10,
        "rtpPayloadType"@.len() == 14,
        "ssrc"@.len() == 4,
        "targetDelay"@.len() == 11,
        "aesKey"@.len() == 6,
        "aesIvMask"@.len() == 9,
        "timeBase"@.len() == 8,
        "bitRate"@.len() == 7,
        "channels"@.len() == 8,
        "sampleRate"@.len() == 10,
        "requestId"@.len() == 9,
        "appId"@.len() == 5,
        "type"@ != "ssrc"@,
        "codecName"@ != "aesIvMask"@,
        "timeBase"@ != "channels"@,
        "rtpProfile"@ != "sampleRate"@,
{
    reveal_strlit("index");
    reveal_strlit("type");
    reveal_strlit("codecName");
    reveal_strlit("rtpProfile");
    reveal_strlit("rtpPayloadType");
    reveal_strlit("ssrc");
    reveal_strlit("targetDelay");
    reveal_strlit("aesKey");
    reveal_strlit("aesIvMask");
    reveal_strlit("timeBase");
    reveal_strlit("bitRate");
    reveal_strlit("channels");
    reveal_strlit("sampleRate");
    reveal_strlit("requestId");
    reveal_strlit("appId");
    assert("type"@[0] != "ssrc"@[0]);
    assert("codecName"@[0] != "aesIvMask"@[0]);
    assert("timeBase"@[0] != "channels"@[0]);
    assert("rtpProfile"@[0] != "sampleRate"@[0]);
}

/// What is sent to launch an app asks the device itself for the app of its kind, which is the one
/// that is then waited for.
pub proof fn launches_ask_for_the_app(
    ids: &mut RequestIds,
    is_audio_only: bool,
    started: (&'static str, CastMessage),
)
    requires
        call_ensures(launch_mirroring, (ids, is_audio_only), started),
    ensures
        started.0@ == (if is_audio_only {
            "85CDB22F"@
        } else {
            "0F5096E8"@
        }),
        started.1@.source == "sender-0"@,
        started.1@.destination == "receiver-0"@,
        started.1@.namespace == "urn:x-cast:com.google.cast.receiver"@,
        final(ids).next == (old(ids).next + 1) % 0x1_0000_0000_0000_0000,
        ({
            let sent = json::parsed(started.1@.payload);
            &&& sent is Some
            &&& sent->0.text_at("type"@) == Some("LAUNCH"@)
            &&& sent->0.unsigned_at("requestId"@) == Some(old(ids).next)
            &&& sent->0.text_at("appId"@) == Some(started.0@)
        }),
{
    lemma_keys();
}

/// Any status that lists the app makes the transport of the first app under that id the one that
/// is spoken to, and without a transport the launch has failed.
pub proof fn listed_apps_give_their_transport(
    message: &CastMessage,
    app: &str,
    outcome: Option<Result<String, LaunchError>>,
    document: Json,
    apps: Seq<Json>,
    i: int,
)
    requires
        call_ensures(on_launch_message, (message, app), outcome),
        message@.namespace == "urn:x-cast:com.google.cast.receiver"@,
        json::parsed(message@.payload) == Some(document),
        document.text_at("type"@) == Some("RECEIVER_STATUS"@),
        document.get("status"@) is Some,
        document.get("status"@)->0.list_at("applications"@) == Some(apps),
        0 <= i < apps.len(),
        apps[i].text_at("appId"@) == Some(app@),
        forall|j: int| 0 <= j < i ==> (#[trigger] apps[j]).text_at("appId"@) != Some(app@),
    ensures
        ({
            let transport = apps[i].text_at("transportId"@);
            &&& transport is Some ==> {
                outcome matches Some(Ok(found)) && found@ == transport->0
            }
            &&& transport is None ==> (outcome matches Some(Err(LaunchError::NoTransportId)))
        }),
{
    let views = crate::mirroring::apps_of(document);
    assert(views[i] == crate::mirroring::app_of(apps[i]));
    assert forall|k: int| 0 <= k < i implies (#[trigger] views[k]).app_id != Some(app@) by {
        assert(views[k] == crate::mirroring::app_of(apps[k]));
    }
    crate::mirroring::first_app_is_the_first(views, app@, i);
}

/// Nothing but a status that lists the app, or a message that says no, ends the waiting.
pub proof fn other_messages_keep_the_launch_waiting(
    message: &CastMessage,
    app: &str,
    outcome: Option<Result<String, LaunchError>>,
)
    requires
        call_ensures(on_launch_message, (message, app), outcome),
    ensures
        ({
            let parsed = json::parsed(message@.payload);
            let document = parsed->0;
            let kind = document.text_at("type"@);
            let is_heard = message@.namespace == "urn:x-cast:com.google.cast.receiver"@ && parsed
                is Some;
            &&& !is_heard ==> outcome is None
            &&& is_heard && kind == Some("LAUNCH_ERROR"@) ==> {
                outcome matches Some(Err(LaunchError::Rejected(words))) && words@
                    == message@.payload
            }
            &&& is_heard && kind != Some("LAUNCH_ERROR"@) && kind != Some("RECEIVER_STATUS"@)
                ==> outcome is None
            &&& is_heard && kind == Some("RECEIVER_STATUS"@) && (document.get("status"@) is None
                || document.get("status"@)->0.list_at("applications"@) is None) ==> outcome is None
        }),
{
    reveal_strlit("LAUNCH_ERROR");
    reveal_strlit("RECEIVER_STATUS");
    assert("LAUNCH_ERROR"@.len() != "RECEIVER_STATUS"@.len());
}

/// A status that does not list the app does not end the waiting.
pub proof fn unlisted_apps_keep_the_launch_waiting(
    message: &CastMessage,
    app: &str,
    outcome: Option<Result<String, LaunchError>>,
    document: Json,
    apps: Seq<Json>,
)
    requires
        call_ensures(on_launch_message, (message, app), outcome),
        json::parsed(message@.payload) == Some(document),
        document.text_at("type"@) == Some("RECEIVER_STATUS"@),
        document.get("status"@) is Some,
        document.get("status"@)->0.list_at("applications"@) == Some(apps),
        forall|j: int| 0 <= j < apps.len() ==> (#[trigger] apps[j]).text_at("appId"@) != Some(app@),
    ensures
        outcome is None,
{
    let views = crate::mirroring::apps_of(document);
    assert forall|k: int| 0 <= k < views.len() implies (#[trigger] views[k]).app_id != Some(
        app@,
    ) by {
        assert(views[k] == crate::mirroring::app_of(apps[k]));
    }
    crate::mirroring::first_app_is_the_first(views, app@, views.len() as int);
}

/// What is sent to offer a stream goes to the app, and describes the stream of the offer, field by
/// field.
pub proof fn offers_describe_their_stream(
    ids: &mut RequestIds,
    transport_id: &str,
    offer: &StreamOffer,
    message: CastMessage,
)
    requires
        call_ensures(send_offer, (ids, transport_id, offer), message),
    ensures
        message@.source == "sender-0"@,
        message@.destination == transport_id@,
        message@.namespace == "urn:x-cast:com.google.cast.webrtc"@,
        final(ids).next == (old(ids).next + 1) % 0x1_0000_0000_0000_0000,
        json::parsed(message@.payload) is Some,
        exists|stream: Json| #[trigger]
            crate::mirroring::offers_one_stream(
                json::parsed(message@.payload)->0,
                old(ids).next,
                stream,
            ) && tells_of(stream, *offer),
{
    let stream = stream_document(*offer);
    crate::mirroring::offers_hold_their_stream(old(ids).next, stream);
    lemma_keys();
    assert(crate::mirroring::offers_one_stream(
        json::parsed(message@.payload)->0,
        old(ids).next,
        stream,
    ));
}

/// Whether a document describes an offered stream as the first one, sent in Cast RTP.
pub open spec fn tells_of(stream: Json, offer: StreamOffer) -> bool {
    &&& stream.unsigned_at("index"@) == Some(0u64)
    &&& stream.text_at("type"@) == Some("audio_source"@)
    &&& stream.text_at("rtpProfile"@) == Some("cast"@)
    &&& stream.text_at("codecName"@) == Some(offer.codec@)
    &&& stream.unsigned_at("rtpPayloadType"@) == Some(offer.rtp_payload_type as u64)
    &&& stream.unsigned_at("ssrc"@) == Some(offer.ssrc as u64)
    &&& stream.unsigned_at("targetDelay"@) == Some(offer.target_delay_ms as u64)
    &&& stream.text_at("aesKey"@) == Some(crate::bytes::hex_text(offer.aes_key@))
    &&& stream.text_at("aesIvMask"@) == Some(crate::bytes::hex_text(offer.aes_iv_mask@))
    &&& stream.text_at("timeBase"@) == Some("1/"@ + crate::text::decimal(offer.sample_rate as nat))
    &&& match stream.get("bitRate"@) {
        Some(Json::Unsigned(n)) => n == offer.bit_rate,
        Some(Json::Negative(n)) => n < 0 && n == offer.bit_rate,
        _ => false,
    }
    &&& stream.unsigned_at("sampleRate"@) == Some(offer.sample_rate as u64)
    &&& stream.unsigned_at("channels"@) == Some(offer.channels as u64)
}

/// A standard offer is stereo Opus at 48 kHz and 128 kbit/s without delay, with the secrets that
/// were given and an SSRC made of the random number.
pub proof fn standard_offers_are_stereo_opus(
    raw: u32,
    aes_key: [u8; 16],
    aes_iv_mask: [u8; 16],
    offer: StreamOffer,
    ssrc: u32,
)
    requires
        call_ensures(StreamOffer::from_random, (raw, aes_key, aes_iv_mask), offer),
        call_ensures(ssrc_from, (raw,), ssrc),
    ensures
        offer.ssrc == ssrc,
        offer.aes_key == aes_key,
        offer.aes_iv_mask == aes_iv_mask,
        offer.codec@ == "opus"@,
        offer.sample_rate == 48_000,
        offer.channels == 2,
        offer.bit_rate == 128_000,
        offer.rtp_payload_type == 127,
        offer.target_delay_ms == 0,
{
}

/// What an ANSWER comes to: if its result is ok and it gives a port, the low 16 bits of that and
/// the accepted streams; and else what is wrong with it. Another message comes to nothing, but one
/// on the same namespace that is no JSON is an error.
pub proof fn answers_give_port_and_streams(
    message: &CastMessage,
    outcome: Option<Result<StreamAnswer, OfferError>>,
)
    requires
        call_ensures(on_answer_message, (message,), outcome),
    ensures
        ({
            let parsed = json::parsed(message@.payload);
            let document = parsed->0;
            let on_webrtc = message@.namespace == "urn:x-cast:com.google.cast.webrtc"@;
            let is_answer = on_webrtc && parsed is Some && document.text_at("type"@) == Some(
                "ANSWER"@,
            );
            let is_ok = document.text_at("result"@) == Some("ok"@);
            let body = document.get("answer"@);
            let port = body->0.unsigned_at("udpPort"@);
            &&& !on_webrtc ==> outcome is None
            &&& on_webrtc && parsed is None ==> (outcome matches Some(
                Err(OfferError::Undecodable),
            ))
            &&& on_webrtc && parsed is Some && !is_answer ==> outcome is None
            &&& is_answer && !is_ok ==> {
                outcome matches Some(Err(OfferError::Rejected(words))) && words@
                    == message@.payload
            }
            &&& is_answer && is_ok && body is None ==> (outcome matches Some(
                Err(OfferError::NoAnswer),
            ))
            &&& is_answer && is_ok && body is Some && port is None ==> (outcome matches Some(
                Err(OfferError::NoUdpPort),
            ))
            &&& is_answer && is_ok && body is Some && port is Some ==> {
                outcome matches Some(Ok(answer)) && answer.udp_port == port->0 % 0x1_0000
                    && answer.send_indexes@ == (match body->0.list_at("sendIndexes"@) {
                    Some(items) => crate::mirroring::whole_numbers(items),
                    None => Seq::empty(),
                })
            }
        }),
{
}

/// Each look for a reply lasts half a second, or to the deadline if that comes first, and
/// after the deadline the waiting has failed.
pub proof fn replies_are_looked_for_to_the_deadline(
    elapsed_ns: u64,
    timeout_ns: u64,
    launch: Result<u64, LaunchError>,
    answer: Result<u64, OfferError>,
)
    requires
        call_ensures(next_launch_poll, (elapsed_ns, timeout_ns), launch),
        call_ensures(next_answer_poll, (elapsed_ns, timeout_ns), answer),
    ensures
        elapsed_ns >= timeout_ns ==> (launch matches Err(LaunchError::TimedOut)),
        elapsed_ns >= timeout_ns ==> (answer matches Err(OfferError::TimedOut)),
        elapsed_ns < timeout_ns ==> {
            &&& launch matches Ok(ns) && ns <= 500_000_000 && elapsed_ns + ns <= timeout_ns && (ns
                == 500_000_000 || elapsed_ns + ns == timeout_ns)
            &&& answer is Ok && answer->Ok_0 == launch->Ok_0
        },
{
}

/// A refusal is reported with the whole of the receiver's reply at the end.
pub proof fn refusals_quote_the_reply(
    launch: &LaunchError,
    launch_text: String,
    offer: &OfferError,
    offer_text: String,
)
    requires
        call_ensures(LaunchError::message, (launch,), launch_text),
        call_ensures(OfferError::message, (offer,), offer_text),
    ensures
        *launch matches LaunchError::Rejected(reply) ==> launch_text@
            == "Receiver rejected LAUNCH: "@ + reply@,
        *offer matches OfferError::Rejected(reply) ==> offer_text@ == "OFFER rejected: "@ + reply@,
{
}

} // verus!
