//! Mirroring control: LAUNCH the app, then OFFER and ANSWER on the `webrtc` namespace, which
//! is JSON of Cast's own and neither SDP nor WebRTC.

use rand::RngCore;
use vstd::prelude::*;

use crate::bytes::hex_encode;
use crate::cast_channel::close_transport;
use crate::cast_channel::json_message;
use crate::cast_channel::value_type_is;
use crate::cast_channel::CastMessage;
use crate::cast_channel::MessageView;
use crate::cast_channel::NS_RECEIVER;
use crate::cast_channel::NS_WEBRTC;
use crate::cast_channel::PLATFORM_RECEIVER_ID;
use crate::json;
use crate::json::Json;
use crate::text::push_decimal;
use crate::text::same_text;
use crate::wait::next_poll;

verus! {

/// The receiver app that mirrors audio and video.
pub const APP_MIRRORING_AUDIO_VIDEO: &'static str = "0F5096E8";

/// The receiver app that mirrors audio alone.
pub const APP_MIRRORING_AUDIO_ONLY: &'static str = "85CDB22F";

pub const OPUS_CODEC: &'static str = "opus";
pub const OPUS_SAMPLE_RATE: u32 = 48_000;
pub const OPUS_CHANNELS: u32 = 2;
pub const OPUS_BITRATE: i32 = 128_000;
pub const RTP_PAYLOAD_TYPE: u8 = 127;

/// No delay at all: the receiver's own default applies only when the field is absent.
pub const TARGET_DELAY_MS: u32 = 0;

/// How long one look at the channel may take before the deadline is looked at again.
pub const POLL_INTERVAL_NS: u64 = 500_000_000;

/// Which receiver app a device gets.
#[derive(Debug, Clone, Copy, PartialEq, Eq, Structural)]
pub enum StreamMode {
    AudioOnly,
    AudioVideo,
}

impl StreamMode {
    /// The id of the receiver app.
    pub open spec fn app(self) -> Seq<char> {
        match self {
            StreamMode::AudioOnly => APP_MIRRORING_AUDIO_ONLY@,
            StreamMode::AudioVideo => APP_MIRRORING_AUDIO_VIDEO@,
        }
    }

    /// The id of the receiver app.
    pub fn app_id(self) -> (id: &'static str)
        ensures
            id@ == self.app(),
    {
        match self {
            StreamMode::AudioOnly => APP_MIRRORING_AUDIO_ONLY,
            StreamMode::AudioVideo => APP_MIRRORING_AUDIO_VIDEO,
        }
    }
}

/// Numbers for requests, from 1 on.
#[derive(Debug)]
pub struct RequestIds {
    pub next: u64,
}

impl RequestIds {
    /// The numbers of a new process.
    pub fn new() -> (ids: RequestIds)
        ensures
            ids.next == 1,
    {
        RequestIds { next: 1 }
    }

    /// The next number.
    pub fn new_request_id(&mut self) -> (id: u64)
        ensures
            id == old(self).next,
            final(self).next == old(self).next.wrapping_add(1),
    {
        let id: u64 = self.next;
        self.next = id.wrapping_add(1);
        id
    }
}

/// The secrets and the label of an offered audio stream.
pub struct StreamOffer {
    pub ssrc: u32,
    pub aes_key: [u8; 16],
    pub aes_iv_mask: [u8; 16],
}

/// A random number made an SSRC: odd and below 2^31.
pub open spec fn ssrc_of(raw: u32) -> u32 {
    let low = raw % 0x8000_0000;
    if low % 2 == 0 {
        (low + 1) as u32
    } else {
        low
    }
}

/// Makes a random number an SSRC.
pub fn ssrc_from(raw: u32) -> (ssrc: u32)
    ensures
        ssrc == ssrc_of(raw),
{
    let ssrc: u32 = raw & 0x7FFF_FFFF | 1;
    proof {
        let low: u32 = raw % 0x8000_0000;
        assert(raw & 0x7FFF_FFFF == raw % 0x8000_0000) by (bit_vector);
        assert(low < 0x8000_0000 ==> low | 1 == (if low % 2 == 0 {
            (low + 1) as u32
        } else {
            low
        })) by (bit_vector);
    }
    ssrc
}

/// Calls `fill_bytes` of `rand`'s thread-local generator. Nothing is claimed of the bytes.
#[verifier::external_body]
pub(crate) fn random_block() -> [u8; 16] {
    let mut block = [0u8; 16];
    rand::rng().fill_bytes(&mut block);
    block
}

/// Calls `next_u32` of `rand`'s thread-local generator. Nothing is claimed of the number.
#[verifier::external_body]
pub(crate) fn random_u32() -> u32 {
    rand::rng().next_u32()
}

impl StreamOffer {
    /// A stream with given secrets, labelled by a random number.
    pub fn from_random(raw: u32, aes_key: [u8; 16], aes_iv_mask: [u8; 16]) -> (offer: StreamOffer)
        ensures
            offer == (StreamOffer { ssrc: ssrc_of(raw), aes_key, aes_iv_mask }),
    {
        StreamOffer { ssrc: ssrc_from(raw), aes_key, aes_iv_mask }
    }
}

impl Default for StreamOffer {
    /// A stream with fresh secrets.
    fn default() -> (offer: StreamOffer)
        ensures
            exists|raw: u32| offer.ssrc == #[trigger] ssrc_of(raw),
    {
        let aes_key: [u8; 16] = random_block();
        let aes_iv_mask: [u8; 16] = random_block();
        let raw: u32 = random_u32();
        StreamOffer::from_random(raw, aes_key, aes_iv_mask)
    }
}

/// What the receiver accepted: where to send, and which of the offered streams.
#[derive(Debug)]
pub struct StreamAnswer {
    pub udp_port: u16,
    pub send_indexes: Vec<u64>,
}

/// What a `StreamAnswer` holds.
#[verifier::ext_equal]
pub struct AnswerView {
    pub udp_port: u16,
    pub send_indexes: Seq<u64>,
}

impl View for StreamAnswer {
    type V = AnswerView;

    open spec fn view(&self) -> AnswerView {
        AnswerView { udp_port: self.udp_port, send_indexes: self.send_indexes@ }
    }
}

/// The app that runs on the receiver for us.
#[derive(Debug)]
pub struct MirroringSession {
    pub transport_id: String,
    pub session_id: String,
}

/// What a `MirroringSession` holds.
#[verifier::ext_equal]
pub struct SessionView {
    pub transport_id: Seq<char>,
    pub session_id: Seq<char>,
}

impl View for MirroringSession {
    type V = SessionView;

    open spec fn view(&self) -> SessionView {
        SessionView { transport_id: self.transport_id@, session_id: self.session_id@ }
    }
}

/// The request to launch an app.
pub open spec fn launch_document(request_id: u64, app: Seq<char>) -> Json {
    Json::Object(
        map![
            "type"@ => Json::Text("LAUNCH"@),
            "requestId"@ => Json::Unsigned(request_id),
            "appId"@ => Json::Text(app),
            "language"@ => Json::Text("en-US"@),
            "supportedAppTypes"@ => Json::List(seq![Json::Text("WEB"@)]),
        ],
    )
}

/// The request to stop an app.
pub open spec fn stop_document(request_id: u64, session_id: Seq<char>) -> Json {
    Json::Object(
        map![
            "type"@ => Json::Text("STOP"@),
            "requestId"@ => Json::Unsigned(request_id),
            "sessionId"@ => Json::Text(session_id),
        ],
    )
}

/// A number as it stands in a document.
pub open spec fn number(n: int) -> Json {
    if n >= 0 {
        Json::Unsigned(n as u64)
    } else {
        Json::Negative(n as i64)
    }
}

/// The sequence number that a request id becomes.
pub open spec fn seq_num(request_id: u64) -> int {
    if request_id < 0x8000_0000_0000_0000 {
        request_id as int
    } else {
        request_id - 0x1_0000_0000_0000_0000
    }
}

/// The sequence number that a request id becomes: the same bits, signed.
pub fn signed(request_id: u64) -> (n: i64)
    ensures
        n == seq_num(request_id),
{
    if request_id < 0x8000_0000_0000_0000 {
        request_id as i64
    } else {
        -((u64::MAX - request_id) as i64) - 1
    }
}

/// The audio stream that is offered. The sample rate rides in the time base.
pub open spec fn stream_document(ssrc: u32, aes_key: Seq<u8>, aes_iv_mask: Seq<u8>) -> Json {
    Json::Object(
        map![
            "index"@ => Json::Unsigned(0),
            "type"@ => Json::Text("audio_source"@),
            "codecName"@ => Json::Text(OPUS_CODEC@),
            "codecParameter"@ => Json::Text(""@),
            "rtpProfile"@ => Json::Text("cast"@),
            "rtpPayloadType"@ => Json::Unsigned(RTP_PAYLOAD_TYPE as u64),
            "ssrc"@ => Json::Unsigned(ssrc as u64),
            "targetDelay"@ => Json::Unsigned(TARGET_DELAY_MS as u64),
            "aesKey"@ => Json::Text(crate::bytes::hex_text(aes_key)),
            "aesIvMask"@ => Json::Text(crate::bytes::hex_text(aes_iv_mask)),
            "timeBase"@ => Json::Text("1/"@ + crate::text::decimal(OPUS_SAMPLE_RATE as nat)),
            "receiverRtcpEventLog"@ => Json::Bool(false),
            "bitRate"@ => Json::Unsigned(OPUS_BITRATE as u64),
            "channels"@ => Json::Unsigned(OPUS_CHANNELS as u64),
        ],
    )
}

/// The offer of one stream.
pub open spec fn offer_document(request_id: u64, stream: Json) -> Json {
    Json::Object(
        map![
            "type"@ => Json::Text("OFFER"@),
            "seqNum"@ => number(seq_num(request_id)),
            "offer"@ => Json::Object(map![
                "castMode"@ => Json::Text("mirroring"@),
                "supportedStreams"@ => Json::List(seq![stream]),
            ]),
        ],
    )
}

/// Builds the request to launch an app.
pub fn build_launch_payload(request_id: u64, app_id: &str) -> (payload: serde_json::Value)
    ensures
        json::document(payload) == launch_document(request_id, app_id@),
        json::document(payload).is_plain(json::max_levels()),
        json::document(payload).nests_within(json::max_levels()),
{
    let mut types: Vec<serde_json::Value> = Vec::new();
    types.push(json::text("WEB"));
    let types = json::list(types);
    let mut payload = json::new_object();
    json::set(&mut payload, "type", json::text("LAUNCH"));
    json::set(&mut payload, "requestId", json::unsigned(request_id));
    json::set(&mut payload, "appId", json::text(app_id));
    json::set(&mut payload, "language", json::text("en-US"));
    json::set(&mut payload, "supportedAppTypes", types);
    proof {
        reveal_with_fuel(Json::is_plain, 3);
        assert(json::document(types)->List_0 =~= seq![Json::Text("WEB"@)]);
        assert(json::document(types).is_plain(1));
        assert(json::document(payload).is_plain(2));
        json::document(payload).plain_allows_more(2, json::max_levels());
    }
    payload
}

/// Builds the request to stop an app.
pub fn build_stop_payload(request_id: u64, session_id: &str) -> (payload: serde_json::Value)
    ensures
        json::document(payload) == stop_document(request_id, session_id@),
        json::document(payload).is_plain(json::max_levels()),
        json::document(payload).nests_within(json::max_levels()),
{
    let mut payload = json::new_object();
    json::set(&mut payload, "type", json::text("STOP"));
    json::set(&mut payload, "requestId", json::unsigned(request_id));
    json::set(&mut payload, "sessionId", json::text(session_id));
    proof {
        reveal_with_fuel(Json::is_plain, 2);
        assert(json::document(payload).is_plain(1));
        json::document(payload).plain_allows_more(1, json::max_levels());
    }
    payload
}

/// The time base of a sample rate.
pub(crate) fn time_base(sample_rate: u32) -> (text: String)
    ensures
        text@ == "1/"@ + crate::text::decimal(sample_rate as nat),
{
    let mut text: String = "1/".to_owned();
    push_decimal(&mut text, sample_rate as u64);
    text
}

fn build_stream(offer: &StreamOffer) -> (stream: serde_json::Value)
    ensures
        json::document(stream) == stream_document(
            offer.ssrc,
            offer.aes_key@,
            offer.aes_iv_mask@,
        ),
        json::document(stream).is_plain(1),
{
    let rate: String = time_base(OPUS_SAMPLE_RATE);
    let key: String = hex_encode(offer.aes_key.as_slice());
    let mask: String = hex_encode(offer.aes_iv_mask.as_slice());
    let mut stream = json::new_object();
    json::set(&mut stream, "index", json::unsigned(0));
    json::set(&mut stream, "type", json::text("audio_source"));
    json::set(&mut stream, "codecName", json::text(OPUS_CODEC));
    json::set(&mut stream, "codecParameter", json::text(""));
    json::set(&mut stream, "rtpProfile", json::text("cast"));
    json::set(&mut stream, "rtpPayloadType", json::unsigned(RTP_PAYLOAD_TYPE as u64));
    json::set(&mut stream, "ssrc", json::unsigned(offer.ssrc as u64));
    json::set(&mut stream, "targetDelay", json::unsigned(TARGET_DELAY_MS as u64));
    json::set(&mut stream, "aesKey", json::text(key.as_str()));
    json::set(&mut stream, "aesIvMask", json::text(mask.as_str()));
    json::set(&mut stream, "timeBase", json::text(rate.as_str()));
    json::set(&mut stream, "receiverRtcpEventLog", json::boolean(false));
    json::set(&mut stream, "bitRate", json::integer(OPUS_BITRATE as i64));
    json::set(&mut stream, "channels", json::unsigned(OPUS_CHANNELS as u64));
    proof {
        reveal_with_fuel(Json::is_plain, 2);
    }
    stream
}

/// Wraps a stream in an offer.
pub(crate) fn wrap_stream(request_id: u64, stream: serde_json::Value) -> (payload: serde_json::Value)
    requires
        json::document(stream).is_plain(1),
    ensures
        json::document(payload) == offer_document(request_id, json::document(stream)),
        json::document(payload).is_plain(json::max_levels()),
        json::document(payload).nests_within(json::max_levels()),
{
    let mut streams: Vec<serde_json::Value> = Vec::new();
    streams.push(stream);
    let streams = json::list(streams);
    let mut body = json::new_object();
    json::set(&mut body, "castMode", json::text("mirroring"));
    json::set(&mut body, "supportedStreams", streams);
    let mut payload = json::new_object();
    json::set(&mut payload, "type", json::text("OFFER"));
    json::set(&mut payload, "seqNum", json::integer(signed(request_id)));
    json::set(&mut payload, "offer", body);
    proof {
        assert(json::document(streams)->List_0 =~= seq![json::document(stream)]);
        reveal_with_fuel(Json::is_plain, 2);
        assert(json::document(streams).is_plain(2));
        assert(json::document(body).is_plain(3));
        assert(json::document(payload).is_plain(4));
        json::document(payload).plain_allows_more(4, json::max_levels());
    }
    payload
}

/// Builds the offer of the audio stream.
pub fn build_offer_payload(request_id: u64, offer: &StreamOffer) -> (payload: serde_json::Value)
    ensures
        json::document(payload) == offer_document(
            request_id,
            stream_document(offer.ssrc, offer.aes_key@, offer.aes_iv_mask@),
        ),
        json::document(payload).is_plain(json::max_levels()),
        json::document(payload).nests_within(json::max_levels()),
{
    wrap_stream(request_id, build_stream(offer))
}

/// What a look at the channel brings.
#[derive(Debug)]
pub enum Received {
    Message(CastMessage),
    /// Nothing arrived in the time.
    Nothing,
    /// The connection is gone, and nothing will arrive any more.
    Disconnected,
}

/// What a reply is looked for in.
pub enum Heard {
    Document(serde_json::Value),
    /// Nothing to look at: keep waiting.
    Nothing,
    Disconnected,
}

/// What a `Heard` holds.
pub enum HeardView {
    Document(Json),
    Nothing,
    Disconnected,
}

impl View for Heard {
    type V = HeardView;

    open spec fn view(&self) -> HeardView {
        match self {
            Heard::Document(value) => HeardView::Document(json::document(*value)),
            Heard::Nothing => HeardView::Nothing,
            Heard::Disconnected => HeardView::Disconnected,
        }
    }
}

/// What is looked at when a reply is awaited on a namespace: messages on other namespaces,
/// and those that are not JSON, count for nothing.
pub open spec fn heard(received: Received, namespace: Seq<char>) -> HeardView {
    match received {
        Received::Message(message) => if message@.namespace == namespace {
            match json::parsed(message@.payload) {
                Some(document) => HeardView::Document(document),
                None => HeardView::Nothing,
            }
        } else {
            HeardView::Nothing
        },
        Received::Nothing => HeardView::Nothing,
        Received::Disconnected => HeardView::Disconnected,
    }
}

/// Picks what has to be looked at when a reply is awaited on a namespace.
pub fn listen(received: Received, namespace: &str) -> (result: Heard)
    ensures
        result@ == heard(received, namespace@),
        result matches Heard::Document(value) ==> json::document(value).nests_within(
            json::max_levels(),
        ),
{
    match received {
        Received::Message(message) => {
            if same_text(message.namespace.as_str(), namespace) {
                match json::parse(message.payload.as_str()) {
                    Some(value) => Heard::Document(value),
                    None => Heard::Nothing,
                }
            } else {
                Heard::Nothing
            }
        },
        Received::Nothing => Heard::Nothing,
        Received::Disconnected => Heard::Disconnected,
    }
}

/// What a receiver status says of one app.
#[derive(Debug)]
pub struct AppStatus {
    pub app_id: Option<String>,
    pub transport_id: Option<String>,
    pub session_id: Option<String>,
}

/// What an `AppStatus` holds.
#[verifier::ext_equal]
pub struct AppView {
    pub app_id: Option<Seq<char>>,
    pub transport_id: Option<Seq<char>>,
    pub session_id: Option<Seq<char>>,
}

impl View for AppStatus {
    type V = AppView;

    open spec fn view(&self) -> AppView {
        AppView {
            app_id: crate::text::text_view(self.app_id),
            transport_id: crate::text::text_view(self.transport_id),
            session_id: crate::text::text_view(self.session_id),
        }
    }
}

/// What is read of a message on the receiver namespace.
#[derive(Debug)]
pub struct LaunchReply {
    pub request_id: Option<u64>,
    pub kind: Option<String>,
    pub applications: Vec<AppStatus>,
}

/// What a `LaunchReply` holds.
#[verifier::ext_equal]
pub struct LaunchReplyView {
    pub request_id: Option<u64>,
    pub kind: Option<Seq<char>>,
    pub applications: Seq<AppView>,
}

/// What a list of `AppStatus` holds.
pub open spec fn app_views(apps: Seq<AppStatus>) -> Seq<AppView> {
    apps.map_values(|app: AppStatus| app@)
}

impl View for LaunchReply {
    type V = LaunchReplyView;

    open spec fn view(&self) -> LaunchReplyView {
        LaunchReplyView {
            request_id: self.request_id,
            kind: crate::text::text_view(self.kind),
            applications: app_views(self.applications@),
        }
    }
}

/// What a document says of one app.
pub open spec fn app_of(app: Json) -> AppView {
    AppView {
        app_id: app.text_at("appId"@),
        transport_id: app.text_at("transportId"@),
        session_id: app.text_at("sessionId"@),
    }
}

/// The apps that a receiver status lists.
pub open spec fn apps_of(document: Json) -> Seq<AppView> {
    match document.get("status"@) {
        Some(status) => match status.list_at("applications"@) {
            Some(apps) => apps.map_values(|app: Json| app_of(app)),
            None => Seq::empty(),
        },
        None => Seq::empty(),
    }
}

/// What is read of a document on the receiver namespace.
pub open spec fn launch_reply_of(document: Json) -> LaunchReplyView {
    LaunchReplyView {
        request_id: document.unsigned_at("requestId"@),
        kind: document.text_at("type"@),
        applications: apps_of(document),
    }
}

fn read_app(app: &serde_json::Value) -> (status: AppStatus)
    ensures
        status@ == app_of(json::document(*app)),
{
    AppStatus {
        app_id: json::owned_text_at(app, "appId"),
        transport_id: json::owned_text_at(app, "transportId"),
        session_id: json::owned_text_at(app, "sessionId"),
    }
}

fn read_apps(value: &serde_json::Value) -> (apps: Vec<AppStatus>)
    ensures
        app_views(apps@) == apps_of(json::document(*value)),
{
    let mut apps: Vec<AppStatus> = Vec::new();
    let status = match json::get(value, "status") {
        Some(status) => status,
        None => {
            assert(app_views(apps@) =~= Seq::empty());
            return apps;
        },
    };
    let items = match json::list_at(status, "applications") {
        Some(items) => items,
        None => {
            assert(app_views(apps@) =~= Seq::empty());
            return apps;
        },
    };
    let mut i: usize = 0;
    while i < items.len()
        invariant
            i <= items@.len(),
            apps@.len() == i,
            forall|k: int| 0 <= k < i ==> (#[trigger] apps@[k])@ == app_of(
                json::document(items@[k]),
            ),
        decreases items@.len() - i,
    {
        apps.push(read_app(&items[i]));
        i = i + 1;
    }
    assert(app_views(apps@) =~= apps_of(json::document(*value)));
    apps
}

/// Reads a document on the receiver namespace.
pub fn read_launch_reply(value: &serde_json::Value) -> (reply: LaunchReply)
    ensures
        reply@ == launch_reply_of(json::document(*value)),
{
    LaunchReply {
        request_id: json::unsigned_at(value, "requestId"),
        kind: json::owned_text_at(value, "type"),
        applications: read_apps(value),
    }
}

/// The first of the listed apps with an id.
pub open spec fn first_app(apps: Seq<AppView>, app: Seq<char>) -> Option<AppView>
    decreases apps.len(),
{
    if apps.len() == 0 {
        None
    } else if apps[0].app_id == Some(app) {
        Some(apps[0])
    } else {
        first_app(apps.skip(1), app)
    }
}

proof fn lemma_first_app(apps: Seq<AppView>, app: Seq<char>, n: int)
    requires
        0 <= n <= apps.len(),
        forall|k: int| 0 <= k < n ==> (#[trigger] apps[k]).app_id != Some(app),
    ensures
        first_app(apps, app) == first_app(apps.skip(n), app),
    decreases n,
{
    if n == 0 {
        assert(apps.skip(0) =~= apps);
    } else {
        assert(apps[0].app_id != Some(app));
        lemma_first_app(apps.skip(1), app, n - 1);
        assert(apps.skip(1).skip(n - 1) =~= apps.skip(n));
    }
}

/// Finds the first of the listed apps with an id.
pub(crate) fn find_app(apps: &Vec<AppStatus>, app_id: &str) -> (found: Option<usize>)
    ensures
        found is None ==> first_app(app_views(apps@), app_id@) is None,
        found matches Some(i) ==> i < apps@.len() && first_app(app_views(apps@), app_id@) == Some(
            apps@[i as int]@,
        ),
{
    let mut i: usize = 0;
    while i < apps.len()
        invariant
            i <= apps@.len(),
            forall|k: int| 0 <= k < i ==> (#[trigger] app_views(apps@)[k]).app_id != Some(app_id@),
        decreases apps@.len() - i,
    {
        assert(app_views(apps@)[i as int] == apps@[i as int]@);
        let is_it: bool = match &apps[i].app_id {
            Some(id) => same_text(id.as_str(), app_id),
            None => false,
        };
        if is_it {
            proof {
                lemma_first_app(app_views(apps@), app_id@, i as int);
            }
            return Some(i);
        }
        i = i + 1;
    }
    proof {
        lemma_first_app(app_views(apps@), app_id@, i as int);
    }
    None
}

/// What a message on the receiver namespace means to whoever waits for an app.
#[derive(Debug)]
pub enum LaunchVerdict {
    /// The message is about something else.
    Unrelated,
    Ready(MirroringSession),
    NoTransportId,
    NoSessionId,
    Rejected,
}

/// What a `LaunchVerdict` holds.
pub enum LaunchVerdictView {
    Unrelated,
    Ready(SessionView),
    NoTransportId,
    NoSessionId,
    Rejected,
}

impl View for LaunchVerdict {
    type V = LaunchVerdictView;

    open spec fn view(&self) -> LaunchVerdictView {
        match self {
            LaunchVerdict::Unrelated => LaunchVerdictView::Unrelated,
            LaunchVerdict::Ready(session) => LaunchVerdictView::Ready(session@),
            LaunchVerdict::NoTransportId => LaunchVerdictView::NoTransportId,
            LaunchVerdict::NoSessionId => LaunchVerdictView::NoSessionId,
            LaunchVerdict::Rejected => LaunchVerdictView::Rejected,
        }
    }
}

/// What a message means to whoever waits for an app. Only a reply to the request itself
/// counts: a broadcast may describe a session that a run before this one left behind.
pub open spec fn launch_verdict(
    reply: LaunchReplyView,
    request_id: u64,
    app: Seq<char>,
) -> LaunchVerdictView {
    if reply.request_id != Some(request_id) {
        LaunchVerdictView::Unrelated
    } else if reply.kind == Some("RECEIVER_STATUS"@) {
        match first_app(reply.applications, app) {
            None => LaunchVerdictView::Unrelated,
            Some(status) => match (status.transport_id, status.session_id) {
                (None, _) => LaunchVerdictView::NoTransportId,
                (Some(_), None) => LaunchVerdictView::NoSessionId,
                (Some(transport_id), Some(session_id)) => LaunchVerdictView::Ready(
                    SessionView { transport_id, session_id },
                ),
            },
        }
    } else if reply.kind == Some("LAUNCH_ERROR"@) {
        LaunchVerdictView::Rejected
    } else {
        LaunchVerdictView::Unrelated
    }
}

pub(crate) fn is_text(text: &Option<String>, expected: &str) -> (is: bool)
    ensures
        is == (crate::text::text_view(*text) == Some(expected@)),
{
    match text {
        Some(text) => same_text(text.as_str(), expected),
        None => false,
    }
}

/// Decides what a message means to whoever waits for an app.
pub fn judge_launch(reply: &LaunchReply, request_id: u64, app_id: &str) -> (verdict: LaunchVerdict)
    ensures
        verdict@ == launch_verdict(reply@, request_id, app_id@),
{
    let ours: bool = match reply.request_id {
        Some(id) => id == request_id,
        None => false,
    };
    if !ours {
        return LaunchVerdict::Unrelated;
    }
    if is_text(&reply.kind, "RECEIVER_STATUS") {
        let found: usize = match find_app(&reply.applications, app_id) {
            Some(i) => i,
            None => {
                return LaunchVerdict::Unrelated;
            },
        };
        let transport_id: String = match &reply.applications[found].transport_id {
            Some(id) => id.as_str().to_owned(),
            None => {
                return LaunchVerdict::NoTransportId;
            },
        };
        match &reply.applications[found].session_id {
            Some(id) => LaunchVerdict::Ready(
                MirroringSession { transport_id, session_id: id.as_str().to_owned() },
            ),
            None => LaunchVerdict::NoSessionId,
        }
    } else if is_text(&reply.kind, "LAUNCH_ERROR") {
        LaunchVerdict::Rejected
    } else {
        LaunchVerdict::Unrelated
    }
}

/// Why no app was launched.
#[derive(Debug)]
pub enum LaunchError {
    NoTransportId,
    NoSessionId,
    /// The receiver said no, in these words.
    Rejected(String),
    ConnectionLost,
    TimedOut,
}

/// What a `LaunchError` holds.
pub enum LaunchErrorView {
    NoTransportId,
    NoSessionId,
    Rejected(Seq<char>),
    ConnectionLost,
    TimedOut,
}

impl View for LaunchError {
    type V = LaunchErrorView;

    open spec fn view(&self) -> LaunchErrorView {
        match self {
            LaunchError::NoTransportId => LaunchErrorView::NoTransportId,
            LaunchError::NoSessionId => LaunchErrorView::NoSessionId,
            LaunchError::Rejected(reply) => LaunchErrorView::Rejected(reply@),
            LaunchError::ConnectionLost => LaunchErrorView::ConnectionLost,
            LaunchError::TimedOut => LaunchErrorView::TimedOut,
        }
    }
}

impl LaunchErrorView {
    /// What went wrong, in words.
    pub open spec fn words(self) -> Seq<char> {
        match self {
            LaunchErrorView::NoTransportId => "no transportId"@,
            LaunchErrorView::NoSessionId => "no sessionId"@,
            LaunchErrorView::Rejected(reply) => "Receiver rejected LAUNCH: "@ + reply,
            LaunchErrorView::ConnectionLost => "Cast connection lost"@,
            LaunchErrorView::TimedOut => "timed out waiting for a reply"@,
        }
    }
}

impl LaunchError {
    /// What went wrong, in words.
    pub fn message(&self) -> (text: String)
        ensures
            text@ == self@.words(),
    {
        match self {
            LaunchError::NoTransportId => "no transportId".to_owned(),
            LaunchError::NoSessionId => "no sessionId".to_owned(),
            LaunchError::Rejected(reply) => {
                let mut text: String = "Receiver rejected LAUNCH: ".to_owned();
                text.append(reply.as_str());
                text
            },
            LaunchError::ConnectionLost => "Cast connection lost".to_owned(),
            LaunchError::TimedOut => "timed out waiting for a reply".to_owned(),
        }
    }
}

/// An app that was asked for and has not appeared yet.
#[derive(Debug, Clone, Copy)]
pub struct Launching {
    pub request_id: u64,
    pub mode: StreamMode,
}

/// What a step of waiting for an app came to, if it came to anything.
pub open spec fn launch_outcome(
    outcome: Option<Result<MirroringSession, LaunchError>>,
) -> Option<Result<SessionView, LaunchErrorView>> {
    match outcome {
        Some(Ok(session)) => Some(Ok(session@)),
        Some(Err(error)) => Some(Err(error@)),
        None => None,
    }
}

/// What a document on the receiver namespace comes to.
pub open spec fn launch_result(document: Json, request_id: u64, app: Seq<char>) -> Option<
    Result<SessionView, LaunchErrorView>,
> {
    match launch_verdict(launch_reply_of(document), request_id, app) {
        LaunchVerdictView::Unrelated => None,
        LaunchVerdictView::Ready(session) => Some(Ok(session)),
        LaunchVerdictView::NoTransportId => Some(Err(LaunchErrorView::NoTransportId)),
        LaunchVerdictView::NoSessionId => Some(Err(LaunchErrorView::NoSessionId)),
        LaunchVerdictView::Rejected => Some(
            Err(LaunchErrorView::Rejected(json::written(document))),
        ),
    }
}

/// What is received while waiting for an app comes to this.
pub open spec fn launch_step(received: Received, request_id: u64, app: Seq<char>) -> Option<
    Result<SessionView, LaunchErrorView>,
> {
    match heard(received, NS_RECEIVER@) {
        HeardView::Document(document) => launch_result(document, request_id, app),
        HeardView::Nothing => None,
        HeardView::Disconnected => Some(Err(LaunchErrorView::ConnectionLost)),
    }
}

/// Asks the receiver to launch the mirroring app: what to send, and what to wait for.
pub fn launch_mirroring(ids: &mut RequestIds, mode: StreamMode, sender_id: &str) -> (started: (
    Launching,
    CastMessage,
))
    ensures
        started.0 == (Launching { request_id: old(ids).next, mode }),
        started.1@ == (MessageView {
            source: sender_id@,
            destination: PLATFORM_RECEIVER_ID@,
            namespace: NS_RECEIVER@,
            payload: json::written(launch_document(old(ids).next, mode.app())),
        }),
        json::parsed(started.1@.payload) == Some(launch_document(old(ids).next, mode.app())),
        final(ids).next == old(ids).next.wrapping_add(1),
{
    let request_id: u64 = ids.new_request_id();
    let payload = build_launch_payload(request_id, mode.app_id());
    let message = json_message(sender_id, PLATFORM_RECEIVER_ID, NS_RECEIVER, &payload);
    (Launching { request_id, mode }, message)
}

impl Launching {
    /// How long to look at the channel next, when this much of the time has gone by.
    pub fn next_poll(&self, elapsed_ns: u64, timeout_ns: u64) -> (wait: Result<u64, LaunchError>)
        ensures
            match crate::wait::poll(elapsed_ns, timeout_ns, POLL_INTERVAL_NS) {
                Some(ns) => wait == Ok::<u64, LaunchError>(ns),
                None => wait matches Err(error) && error@ == LaunchErrorView::TimedOut,
            },
    {
        match next_poll(elapsed_ns, timeout_ns, POLL_INTERVAL_NS) {
            Some(ns) => Ok(ns),
            None => Err(LaunchError::TimedOut),
        }
    }

    /// Takes in what arrived. `None` means: keep waiting.
    pub fn on_received(&self, received: Received) -> (outcome: Option<
        Result<MirroringSession, LaunchError>,
    >)
        ensures
            launch_outcome(outcome) == launch_step(received, self.request_id, self.mode.app()),
    {
        match listen(received, NS_RECEIVER) {
            Heard::Document(value) => {
                let reply = read_launch_reply(&value);
                match judge_launch(&reply, self.request_id, self.mode.app_id()) {
                    LaunchVerdict::Unrelated => None,
                    LaunchVerdict::Ready(session) => Some(Ok(session)),
                    LaunchVerdict::NoTransportId => Some(Err(LaunchError::NoTransportId)),
                    LaunchVerdict::NoSessionId => Some(Err(LaunchError::NoSessionId)),
                    LaunchVerdict::Rejected => Some(
                        Err(LaunchError::Rejected(json::write(&value))),
                    ),
                }
            },
            Heard::Nothing => None,
            Heard::Disconnected => Some(Err(LaunchError::ConnectionLost)),
        }
    }
}

impl MirroringSession {
    /// What takes the session down: STOP unloads the app, and both virtual connections are
    /// closed.
    pub fn teardown(&self, ids: &mut RequestIds, sender_id: &str) -> (messages: Vec<CastMessage>)
        ensures
            messages@.len() == 3,
            messages@[0]@ == (MessageView {
                source: sender_id@,
                destination: PLATFORM_RECEIVER_ID@,
                namespace: NS_RECEIVER@,
                payload: json::written(stop_document(old(ids).next, self.session_id@)),
            }),
            json::parsed(messages@[0]@.payload) == Some(
                stop_document(old(ids).next, self.session_id@),
            ),
            messages@[1]@ == crate::cast_channel::close_view(sender_id@, self.transport_id@),
            messages@[2]@ == crate::cast_channel::close_view(sender_id@, PLATFORM_RECEIVER_ID@),
            json::parsed(messages@[1]@.payload) == Some(crate::cast_channel::close_document()),
            json::parsed(messages@[2]@.payload) == Some(crate::cast_channel::close_document()),
            final(ids).next == old(ids).next.wrapping_add(1),
    {
        let stop = build_stop_payload(ids.new_request_id(), self.session_id.as_str());
        let mut messages: Vec<CastMessage> = Vec::new();
        messages.push(json_message(sender_id, PLATFORM_RECEIVER_ID, NS_RECEIVER, &stop));
        messages.push(close_transport(sender_id, self.transport_id.as_str()));
        messages.push(close_transport(sender_id, PLATFORM_RECEIVER_ID));
        messages
    }
}

/// What is read of the body of an ANSWER.
#[derive(Debug)]
pub struct AnswerBody {
    pub udp_port: Option<u64>,
    pub send_indexes: Vec<u64>,
}

/// What is read of a message on the `webrtc` namespace.
#[derive(Debug)]
pub struct AnswerReply {
    pub kind: Option<String>,
    pub result: Option<String>,
    pub answer: Option<AnswerBody>,
}

/// What an `AnswerBody` holds.
#[verifier::ext_equal]
pub struct AnswerBodyView {
    pub udp_port: Option<u64>,
    pub send_indexes: Seq<u64>,
}

/// What an `AnswerReply` holds.
#[verifier::ext_equal]
pub struct AnswerReplyView {
    pub kind: Option<Seq<char>>,
    pub result: Option<Seq<char>>,
    pub answer: Option<AnswerBodyView>,
}

impl View for AnswerBody {
    type V = AnswerBodyView;

    open spec fn view(&self) -> AnswerBodyView {
        AnswerBodyView { udp_port: self.udp_port, send_indexes: self.send_indexes@ }
    }
}

impl View for AnswerReply {
    type V = AnswerReplyView;

    open spec fn view(&self) -> AnswerReplyView {
        AnswerReplyView {
            kind: crate::text::text_view(self.kind),
            result: crate::text::text_view(self.result),
            answer: match self.answer {
                Some(body) => Some(body@),
                None => None,
            },
        }
    }
}

/// The whole numbers among the items of a list.
pub open spec fn whole_numbers(items: Seq<Json>) -> Seq<u64>
    decreases items.len(),
{
    if items.len() == 0 {
        Seq::empty()
    } else {
        match items.last().as_unsigned() {
            Some(n) => whole_numbers(items.drop_last()).push(n),
            None => whole_numbers(items.drop_last()),
        }
    }
}

/// What the body of an ANSWER says.
pub open spec fn answer_body_of(answer: Json) -> AnswerBodyView {
    AnswerBodyView {
        udp_port: answer.unsigned_at("udpPort"@),
        send_indexes: match answer.list_at("sendIndexes"@) {
            Some(items) => whole_numbers(items),
            None => Seq::empty(),
        },
    }
}

/// What is read of a document on the `webrtc` namespace.
pub open spec fn answer_reply_of(document: Json) -> AnswerReplyView {
    AnswerReplyView {
        kind: document.text_at("type"@),
        result: document.text_at("result"@),
        answer: match document.get("answer"@) {
            Some(answer) => Some(answer_body_of(answer)),
            None => None,
        },
    }
}

fn read_whole_numbers(items: &Vec<serde_json::Value>) -> (numbers: Vec<u64>)
    ensures
        numbers@ == whole_numbers(
            items@.map_values(|item: serde_json::Value| json::document(item)),
        ),
{
    let ghost documents = items@.map_values(|item: serde_json::Value| json::document(item));
    let mut numbers: Vec<u64> = Vec::new();
    let mut i: usize = 0;
    while i < items.len()
        invariant
            i <= items@.len(),
            documents == items@.map_values(|item: serde_json::Value| json::document(item)),
            numbers@ == whole_numbers(documents.take(i as int)),
        decreases items@.len() - i,
    {
        assert(documents.take(i + 1).drop_last() =~= documents.take(i as int));
        assert(documents.take(i + 1).last() == json::document(items@[i as int]));
        match items[i].as_u64() {
            Some(n) => {
                numbers.push(n);
            },
            None => {},
        }
        i = i + 1;
    }
    assert(documents.take(i as int) =~= documents);
    numbers
}

fn read_answer_body(answer: &serde_json::Value) -> (body: AnswerBody)
    ensures
        body@ == answer_body_of(json::document(*answer)),
{
    let send_indexes: Vec<u64> = match json::list_at(answer, "sendIndexes") {
        Some(items) => read_whole_numbers(items),
        None => Vec::new(),
    };
    let body = AnswerBody { udp_port: json::unsigned_at(answer, "udpPort"), send_indexes };
    assert(body@ =~= answer_body_of(json::document(*answer)));
    body
}

/// Reads a document on the `webrtc` namespace.
pub fn read_answer_reply(value: &serde_json::Value) -> (reply: AnswerReply)
    ensures
        reply@ == answer_reply_of(json::document(*value)),
{
    AnswerReply {
        kind: json::owned_text_at(value, "type"),
        result: json::owned_text_at(value, "result"),
        answer: match json::get(value, "answer") {
            Some(answer) => Some(read_answer_body(answer)),
            None => None,
        },
    }
}

/// What an ANSWER lacks.
#[derive(Debug, Clone, Copy, PartialEq, Eq, Structural)]
pub enum AnswerFault {
    /// The offer was not accepted.
    Rejected,
    NoAnswer,
    NoUdpPort,
    UdpPortOutOfRange(u64),
}

/// What an ANSWER comes to: a port from 1 to 65535, and the streams that were accepted.
pub open spec fn answer_verdict(reply: AnswerReplyView) -> Result<AnswerView, AnswerFault> {
    if reply.result != Some("ok"@) {
        Err(AnswerFault::Rejected)
    } else {
        match reply.answer {
            None => Err(AnswerFault::NoAnswer),
            Some(body) => match body.udp_port {
                None => Err(AnswerFault::NoUdpPort),
                Some(port) => if 1 <= port <= 65535 {
                    Ok(AnswerView { udp_port: port as u16, send_indexes: body.send_indexes })
                } else {
                    Err(AnswerFault::UdpPortOutOfRange(port))
                },
            },
        }
    }
}

/// What a result of reading an ANSWER holds.
pub open spec fn answer_outcome<E>(outcome: Result<StreamAnswer, E>) -> Result<AnswerView, E> {
    match outcome {
        Ok(answer) => Ok(answer@),
        Err(error) => Err(error),
    }
}

/// Decides what an ANSWER comes to.
pub fn judge_answer(reply: AnswerReply) -> (outcome: Result<StreamAnswer, AnswerFault>)
    ensures
        answer_outcome(outcome) == answer_verdict(reply@),
{
    if !is_text(&reply.result, "ok") {
        return Err(AnswerFault::Rejected);
    }
    let body: AnswerBody = match reply.answer {
        Some(body) => body,
        None => {
            return Err(AnswerFault::NoAnswer);
        },
    };
    let port: u64 = match body.udp_port {
        Some(port) => port,
        None => {
            return Err(AnswerFault::NoUdpPort);
        },
    };
    if 1 <= port && port <= 65535 {
        Ok(StreamAnswer { udp_port: port as u16, send_indexes: body.send_indexes })
    } else {
        Err(AnswerFault::UdpPortOutOfRange(port))
    }
}

/// Why no stream was agreed on.
#[derive(Debug)]
pub enum OfferError {
    /// The receiver said no, in these words.
    Rejected(String),
    NoAnswer,
    NoUdpPort,
    UdpPortOutOfRange(u64),
    ConnectionLost,
    TimedOut,
}

/// What an `OfferError` holds.
pub enum OfferErrorView {
    Rejected(Seq<char>),
    NoAnswer,
    NoUdpPort,
    UdpPortOutOfRange(u64),
    ConnectionLost,
    TimedOut,
}

impl View for OfferError {
    type V = OfferErrorView;

    open spec fn view(&self) -> OfferErrorView {
        match self {
            OfferError::Rejected(reply) => OfferErrorView::Rejected(reply@),
            OfferError::NoAnswer => OfferErrorView::NoAnswer,
            OfferError::NoUdpPort => OfferErrorView::NoUdpPort,
            OfferError::UdpPortOutOfRange(port) => OfferErrorView::UdpPortOutOfRange(*port),
            OfferError::ConnectionLost => OfferErrorView::ConnectionLost,
            OfferError::TimedOut => OfferErrorView::TimedOut,
        }
    }
}

impl OfferErrorView {
    /// What went wrong, in words.
    pub open spec fn words(self) -> Seq<char> {
        match self {
            OfferErrorView::Rejected(reply) => "OFFER rejected: "@ + reply,
            OfferErrorView::NoAnswer => "no `answer` field"@,
            OfferErrorView::NoUdpPort => "no udpPort"@,
            OfferErrorView::UdpPortOutOfRange(port) => "udpPort "@ + crate::text::decimal(
                port as nat,
            ) + " out of range (expected 1..=65535)"@,
            OfferErrorView::ConnectionLost => "Cast connection lost"@,
            OfferErrorView::TimedOut => "timed out waiting for a reply"@,
        }
    }
}

impl OfferError {
    /// What went wrong, in words.
    pub fn message(&self) -> (text: String)
        ensures
            text@ == self@.words(),
    {
        match self {
            OfferError::Rejected(reply) => {
                let mut text: String = "OFFER rejected: ".to_owned();
                text.append(reply.as_str());
                text
            },
            OfferError::NoAnswer => "no `answer` field".to_owned(),
            OfferError::NoUdpPort => "no udpPort".to_owned(),
            OfferError::UdpPortOutOfRange(port) => {
                let mut text: String = "udpPort ".to_owned();
                push_decimal(&mut text, *port);
                text.append(" out of range (expected 1..=65535)");
                text
            },
            OfferError::ConnectionLost => "Cast connection lost".to_owned(),
            OfferError::TimedOut => "timed out waiting for a reply".to_owned(),
        }
    }
}

/// What a result of waiting for an ANSWER holds.
pub open spec fn offer_outcome(outcome: Result<StreamAnswer, OfferError>) -> Result<
    AnswerView,
    OfferErrorView,
> {
    match outcome {
        Ok(answer) => Ok(answer@),
        Err(error) => Err(error@),
    }
}

/// What an ANSWER document comes to.
pub open spec fn answer_result(document: Json) -> Result<AnswerView, OfferErrorView> {
    match answer_verdict(answer_reply_of(document)) {
        Ok(answer) => Ok(answer),
        Err(AnswerFault::Rejected) => Err(OfferErrorView::Rejected(json::written(document))),
        Err(AnswerFault::NoAnswer) => Err(OfferErrorView::NoAnswer),
        Err(AnswerFault::NoUdpPort) => Err(OfferErrorView::NoUdpPort),
        Err(AnswerFault::UdpPortOutOfRange(port)) => Err(OfferErrorView::UdpPortOutOfRange(port)),
    }
}

/// Reads an ANSWER.
pub fn parse_answer(value: &serde_json::Value) -> (outcome: Result<StreamAnswer, OfferError>)
    requires
        json::document(*value).nests_within(json::max_levels()),
    ensures
        offer_outcome(outcome) == answer_result(json::document(*value)),
{
    match judge_answer(read_answer_reply(value)) {
        Ok(answer) => Ok(answer),
        Err(AnswerFault::Rejected) => Err(OfferError::Rejected(json::write(value))),
        Err(AnswerFault::NoAnswer) => Err(OfferError::NoAnswer),
        Err(AnswerFault::NoUdpPort) => Err(OfferError::NoUdpPort),
        Err(AnswerFault::UdpPortOutOfRange(port)) => Err(OfferError::UdpPortOutOfRange(port)),
    }
}

/// What is received while waiting for an ANSWER comes to this.
pub open spec fn offer_step(received: Received) -> Option<Result<AnswerView, OfferErrorView>> {
    match heard(received, NS_WEBRTC@) {
        HeardView::Document(document) => if document.text_at("type"@) == Some("ANSWER"@) {
            Some(answer_result(document))
        } else {
            None
        },
        HeardView::Nothing => None,
        HeardView::Disconnected => Some(Err(OfferErrorView::ConnectionLost)),
    }
}

/// Offers the stream to the app: what to send. An ANSWER has to be waited for.
pub fn send_offer(
    ids: &mut RequestIds,
    sender_id: &str,
    transport_id: &str,
    offer: &StreamOffer,
) -> (message: CastMessage)
    ensures
        ({
            let document = offer_document(
                old(ids).next,
                stream_document(offer.ssrc, offer.aes_key@, offer.aes_iv_mask@),
            );
            &&& message@ == (MessageView {
                source: sender_id@,
                destination: transport_id@,
                namespace: NS_WEBRTC@,
                payload: json::written(document),
            })
            &&& json::parsed(message@.payload) == Some(document)
        }),
        final(ids).next == old(ids).next.wrapping_add(1),
{
    let payload = build_offer_payload(ids.new_request_id(), offer);
    json_message(sender_id, transport_id, NS_WEBRTC, &payload)
}

/// How long to look for an ANSWER next, when this much of the time has gone by.
pub fn next_answer_poll(elapsed_ns: u64, timeout_ns: u64) -> (wait: Result<u64, OfferError>)
    ensures
        match crate::wait::poll(elapsed_ns, timeout_ns, POLL_INTERVAL_NS) {
            Some(ns) => wait == Ok::<u64, OfferError>(ns),
            None => wait matches Err(error) && error@ == OfferErrorView::TimedOut,
        },
{
    match next_poll(elapsed_ns, timeout_ns, POLL_INTERVAL_NS) {
        Some(ns) => Ok(ns),
        None => Err(OfferError::TimedOut),
    }
}

/// Takes in what arrived while an ANSWER is awaited. `None` means: keep waiting.
pub fn on_answer_received(received: Received) -> (outcome: Option<Result<StreamAnswer, OfferError>>)
    ensures
        outcome is Some == offer_step(received) is Some,
        outcome matches Some(result) ==> offer_step(received) == Some(offer_outcome(result)),
{
    match listen(received, NS_WEBRTC) {
        Heard::Document(value) => {
            if value_type_is(&value, "ANSWER") {
                Some(parse_answer(&value))
            } else {
                None
            }
        },
        Heard::Nothing => None,
        Heard::Disconnected => Some(Err(OfferError::ConnectionLost)),
    }
}

/// A reply to any other request never starts a session, nor ends the waiting.
pub proof fn only_our_reply_counts(document: Json, request_id: u64, app: Seq<char>)
    requires
        document.unsigned_at("requestId"@) != Some(request_id),
    ensures
        launch_result(document, request_id, app) is None,
{
}

/// A session is one of the app that was asked for, as the receiver listed it.
pub proof fn session_belongs_to_app(reply: LaunchReplyView, request_id: u64, app: Seq<char>)
    requires
        launch_verdict(reply, request_id, app) is Ready,
    ensures
        exists|i: int|
            0 <= i < reply.applications.len() && (#[trigger] reply.applications[i]) == (AppView {
                app_id: Some(app),
                transport_id: Some(launch_verdict(reply, request_id, app)->Ready_0.transport_id),
                session_id: Some(launch_verdict(reply, request_id, app)->Ready_0.session_id),
            }),
{
    lemma_first_app_is_listed(reply.applications, app);
}

proof fn lemma_first_app_is_listed(apps: Seq<AppView>, app: Seq<char>)
    requires
        first_app(apps, app) is Some,
    ensures
        exists|i: int|
            0 <= i < apps.len() && #[trigger] apps[i] == first_app(apps, app)->0,
        first_app(apps, app)->0.app_id == Some(app),
    decreases apps.len(),
{
    if apps[0].app_id != Some(app) {
        lemma_first_app_is_listed(apps.skip(1), app);
        let i = choose|i: int|
            0 <= i < apps.skip(1).len() && #[trigger] apps.skip(1)[i] == first_app(
                apps.skip(1),
                app,
            )->0;
        assert(apps[i + 1] == apps.skip(1)[i]);
    }
}

/// An ANSWER that is accepted names a port that can be sent to.
pub proof fn accepted_ports_are_usable(reply: AnswerReplyView)
    ensures
        answer_verdict(reply) matches Ok(answer) ==> {
            &&& answer.udp_port >= 1
            &&& reply.answer is Some
            &&& reply.answer->0.udp_port == Some(answer.udp_port as u64)
        },
{
}

/// Every SSRC is odd and below 2^31.
pub proof fn ssrcs_are_odd(raw: u32)
    ensures
        ssrc_of(raw) % 2 == 1,
        ssrc_of(raw) < 0x8000_0000,
{
}

/// Messages on other namespaces, and messages that are not JSON, never reach whoever waits
/// for a reply.
pub proof fn unrelated_traffic_is_ignored(message: CastMessage, request_id: u64, app: Seq<char>)
    ensures
        message@.namespace != NS_RECEIVER@ || json::parsed(message@.payload) is None
            ==> launch_step(Received::Message(message), request_id, app) is None,
        message@.namespace != NS_WEBRTC@ || json::parsed(message@.payload) is None ==> offer_step(
            Received::Message(message),
        ) is None,
{
}

/// Whoever waits for a reply does not wait on once the connection is gone.
pub proof fn disconnecting_ends_the_wait(request_id: u64, app: Seq<char>)
    ensures
        launch_step(Received::Disconnected, request_id, app) == Some(
            Err::<SessionView, LaunchErrorView>(LaunchErrorView::ConnectionLost),
        ),
        offer_step(Received::Disconnected) == Some(
            Err::<AnswerView, OfferErrorView>(OfferErrorView::ConnectionLost),
        ),
{
}

/// An SSRC is the random number with its lowest bit set and its highest bit clear: it is odd,
/// and of the other bits none changes.
pub proof fn ssrcs_keep_the_other_bits(
    raw: u32,
    ssrc: u32,
    aes_key: [u8; 16],
    aes_iv_mask: [u8; 16],
    offer: StreamOffer,
)
    requires
        call_ensures(ssrc_from, (raw,), ssrc),
        call_ensures(StreamOffer::from_random, (raw, aes_key, aes_iv_mask), offer),
    ensures
        ssrc % 2 == 1,
        ssrc / 2 == raw / 2 % 0x4000_0000,
        offer.ssrc == ssrc,
        offer.aes_key == aes_key,
        offer.aes_iv_mask == aes_iv_mask,
{
    let low = raw % 0x8000_0000;
    assert(low / 2 == raw / 2 % 0x4000_0000);
}

/// Each request gets the number after that of the request before it, modulo 2^64, from 1 on.
pub proof fn request_ids_count_up(
    fresh: RequestIds,
    one: &mut RequestIds,
    first: u64,
    other: &mut RequestIds,
    second: u64,
)
    requires
        call_ensures(RequestIds::new, (), fresh),
        call_ensures(RequestIds::new_request_id, (one,), first),
        call_ensures(RequestIds::new_request_id, (other,), second),
        *old(other) == *final(one),
    ensures
        *old(one) == fresh ==> first == 1,
        second == (first + 1) % 0x1_0000_0000_0000_0000,
        second != first,
{
}

/// A sequence number has the bits of its request id: it is the same modulo 2^64.
pub proof fn sequence_numbers_have_the_bits_of_their_ids(request_id: u64, n: i64)
    requires
        call_ensures(signed, (request_id,), n),
    ensures
        n as int % 0x1_0000_0000_0000_0000 == request_id,
{
}

/// The two kinds of device get different apps.
pub proof fn apps_belong_to_modes(mode: StreamMode, app: &'static str)
    requires
        call_ensures(StreamMode::app_id, (mode,), app),
    ensures
        mode == StreamMode::AudioOnly ==> app@ == "85CDB22F"@,
        mode == StreamMode::AudioVideo ==> app@ == "0F5096E8"@,
{
}

proof fn lemma_launch_keys()
    ensures
        "type"@.len() == 4,
        "requestId"@.len() == 9,
        "appId"@.len() == 5,
        "language"@.len() == 8,
        "supportedAppTypes"@.len() == 17,
        "sessionId"@.len() == 9,
        "sessionId"@ != "requestId"@,
{
    reveal_strlit("type");
    reveal_strlit("requestId");
    reveal_strlit("appId");
    reveal_strlit("language");
    reveal_strlit("supportedAppTypes");
    reveal_strlit("sessionId");
    assert("sessionId"@[0] == 's' && "requestId"@[0] == 'r');
}

/// What is sent to launch an app asks the device itself for the app of the mode, under the
/// number whose reply is then waited for, which is a new one.
pub proof fn launches_ask_for_the_app(
    ids: &mut RequestIds,
    mode: StreamMode,
    sender_id: &str,
    started: (Launching, CastMessage),
    app: &'static str,
)
    requires
        call_ensures(launch_mirroring, (ids, mode, sender_id), started),
        call_ensures(StreamMode::app_id, (mode,), app),
    ensures
        started.0.request_id == old(ids).next,
        final(ids).next == (old(ids).next + 1) % 0x1_0000_0000_0000_0000,
        started.0.mode == mode,
        started.1@.source == sender_id@,
        started.1@.destination == "receiver-0"@,
        started.1@.namespace == "urn:x-cast:com.google.cast.receiver"@,
        ({
            let sent = json::parsed(started.1@.payload);
            &&& sent is Some
            &&& sent->0.text_at("type"@) == Some("LAUNCH"@)
            &&& sent->0.unsigned_at("requestId"@) == Some(started.0.request_id)
            &&& sent->0.text_at("appId"@) == Some(app@)
            &&& sent->0.text_at("language"@) == Some("en-US"@)
            &&& sent->0.list_at("supportedAppTypes"@) == Some(seq![Json::Text("WEB"@)])
        }),
{
    lemma_launch_keys();
}

/// Of the apps with an id the first one counts, and without one there is none.
pub proof fn first_app_is_the_first(apps: Seq<AppView>, app: Seq<char>, i: int)
    requires
        0 <= i <= apps.len(),
        i < apps.len() ==> apps[i].app_id == Some(app),
        forall|j: int| 0 <= j < i ==> (#[trigger] apps[j]).app_id != Some(app),
    ensures
        first_app(apps, app) == (if i < apps.len() {
            Some(apps[i])
        } else {
            None
        }),
{
    lemma_first_app(apps, app, i);
    if i < apps.len() {
        assert(apps.skip(i)[0] == apps[i]);
    }
}

/// A document with the number of the launch, which says that it is the receiver's status and
/// lists the app, makes the first app listed under that id the session, with its transport and
/// its session id; if one of these is missing the launch has failed.
pub proof fn listed_apps_become_sessions(
    launching: &Launching,
    message: CastMessage,
    outcome: Option<Result<MirroringSession, LaunchError>>,
    document: Json,
    apps: Seq<Json>,
    app: &'static str,
    i: int,
)
    requires
        call_ensures(Launching::on_received, (launching, Received::Message(message)), outcome),
        call_ensures(StreamMode::app_id, (launching.mode,), app),
        message@.namespace == "urn:x-cast:com.google.cast.receiver"@,
        json::parsed(message@.payload) == Some(document),
        document.unsigned_at("requestId"@) == Some(launching.request_id),
        document.text_at("type"@) == Some("RECEIVER_STATUS"@),
        document.get("status"@) is Some,
        document.get("status"@)->0.list_at("applications"@) == Some(apps),
        0 <= i < apps.len(),
        apps[i].text_at("appId"@) == Some(app@),
        forall|j: int| 0 <= j < i ==> (#[trigger] apps[j]).text_at("appId"@) != Some(app@),
    ensures
        ({
            let transport = apps[i].text_at("transportId"@);
            let session = apps[i].text_at("sessionId"@);
            &&& transport is Some && session is Some ==> {
                &&& outcome matches Some(Ok(started)) && started@.transport_id == transport->0
                    && started@.session_id == session->0
            }
            &&& transport is None ==> (outcome matches Some(Err(LaunchError::NoTransportId)))
            &&& transport is Some && session is None ==> (outcome matches Some(
                Err(LaunchError::NoSessionId),
            ))
        }),
{
    let views = apps_of(document);
    assert(views[i] == app_of(apps[i]));
    assert forall|k: int| 0 <= k < i implies (#[trigger] views[k]).app_id != Some(app@) by {
        assert(views[k] == app_of(apps[k]));
    }
    lemma_first_app(views, app@, i);
    assert(views.skip(i)[0] == views[i]);
}

/// Nothing but a reply to the launch that says no, or that lists the app, ends the waiting,
/// and the end of the connection does.
pub proof fn other_messages_keep_the_launch_waiting(
    launching: &Launching,
    received: Received,
    outcome: Option<Result<MirroringSession, LaunchError>>,
)
    requires
        call_ensures(Launching::on_received, (launching, received), outcome),
    ensures
        received is Nothing ==> outcome is None,
        received is Disconnected ==> (outcome matches Some(Err(LaunchError::ConnectionLost))),
        received matches Received::Message(message) ==> {
            let document = json::parsed(message@.payload);
            let is_reply = message@.namespace == "urn:x-cast:com.google.cast.receiver"@
                && document is Some && document->0.unsigned_at("requestId"@) == Some(
                launching.request_id,
            );
            &&& !is_reply ==> outcome is None
            &&& is_reply && document->0.text_at("type"@) == Some("LAUNCH_ERROR"@) ==> {
                outcome matches Some(Err(LaunchError::Rejected(words))) && words@ == json::written(
                    document->0,
                )
            }
            &&& is_reply && document->0.text_at("type"@) != Some("LAUNCH_ERROR"@)
                && document->0.text_at("type"@) != Some("RECEIVER_STATUS"@) ==> outcome is None
            &&& is_reply && document->0.text_at("type"@) == Some("RECEIVER_STATUS"@) && (
            document->0.get("status"@) is None || document->0.get("status"@)->0.list_at(
                "applications"@,
            ) is None) ==> outcome is None
        },
{
    reveal_strlit("LAUNCH_ERROR");
    reveal_strlit("RECEIVER_STATUS");
    assert("LAUNCH_ERROR"@.len() != "RECEIVER_STATUS"@.len());
}

/// A status that does not list the app does not end the waiting.
pub proof fn unlisted_apps_keep_the_launch_waiting(
    launching: &Launching,
    message: CastMessage,
    outcome: Option<Result<MirroringSession, LaunchError>>,
    document: Json,
    apps: Seq<Json>,
    app: &'static str,
)
    requires
        call_ensures(Launching::on_received, (launching, Received::Message(message)), outcome),
        call_ensures(StreamMode::app_id, (launching.mode,), app),
        json::parsed(message@.payload) == Some(document),
        document.text_at("type"@) == Some("RECEIVER_STATUS"@),
        document.get("status"@) is Some,
        document.get("status"@)->0.list_at("applications"@) == Some(apps),
        forall|j: int| 0 <= j < apps.len() ==> (#[trigger] apps[j]).text_at("appId"@) != Some(app@),
    ensures
        outcome is None,
{
    let views = apps_of(document);
    assert forall|k: int| 0 <= k < views.len() implies (#[trigger] views[k]).app_id != Some(
        app@,
    ) by {
        assert(views[k] == app_of(apps[k]));
    }
    lemma_first_app(views, app@, views.len() as int);
}

/// What takes a session down is a STOP for its session, under a new number, and then a CLOSE of
/// the connection to the app and one of the connection to the device.
pub proof fn teardown_stops_the_app_and_closes(
    session: &MirroringSession,
    ids: &mut RequestIds,
    sender_id: &str,
    messages: Vec<CastMessage>,
)
    requires
        call_ensures(MirroringSession::teardown, (session, ids, sender_id), messages),
    ensures
        messages@.len() == 3,
        forall|i: int| 0 <= i < 3 ==> (#[trigger] messages@[i])@.source == sender_id@,
        messages@[0]@.destination == "receiver-0"@,
        messages@[0]@.namespace == "urn:x-cast:com.google.cast.receiver"@,
        ({
            let stop = json::parsed(messages@[0]@.payload);
            &&& stop is Some
            &&& stop->0.text_at("type"@) == Some("STOP"@)
            &&& stop->0.unsigned_at("requestId"@) == Some(old(ids).next)
            &&& stop->0.text_at("sessionId"@) == Some(session@.session_id)
        }),
        messages@[1]@.destination == session@.transport_id,
        messages@[2]@.destination == "receiver-0"@,
        forall|i: int|
            1 <= i < 3 ==> (#[trigger] messages@[i])@.namespace
                == "urn:x-cast:com.google.cast.tp.connection"@,
        forall|i: int|
            1 <= i < 3 ==> crate::cast_channel::payload_has_type(
                (#[trigger] messages@[i])@.payload,
                "CLOSE"@,
            ),
        final(ids).next == (old(ids).next + 1) % 0x1_0000_0000_0000_0000,
{
    lemma_launch_keys();
    reveal_strlit("reasonCode");
    assert(messages@[1]@.payload == json::written(crate::cast_channel::close_document()));
    assert(messages@[2]@.payload == json::written(crate::cast_channel::close_document()));
}

proof fn lemma_stream_keys()
    ensures
        "index"@.len() == 5,
        "type"@.len() == 4,
        "codecName"@.len() == 9,
        "codecParameter"@.len() == 14,
        "rtpProfile"@.len() == 10,
        "rtpPayloadType"@.len() == 14,
        "ssrc"@.len() == 4,
        "targetDelay"@.len() == 11,
        "aesKey"@.len() == 6,
        "aesIvMask"@.len() == 9,
        "timeBase"@.len() == 8,
        "receiverRtcpEventLog"@.len() == 20,
        "bitRate"@.len() == 7,
        "channels"@.len() == 8,
        "sampleRate"@.len() == 10,
        "seqNum"@.len() == 6,
        "offer"@.len() == 5,
        "castMode"@.len() == 8,
        "supportedStreams"@.len() == 16,
        "type"@ != "ssrc"@,
        "codecName"@ != "aesIvMask"@,
        "codecParameter"@ != "rtpPayloadType"@,
        "timeBase"@ != "channels"@,
        "rtpProfile"@ != "sampleRate"@,
{
    reveal_strlit("index");
    reveal_strlit("type");
    reveal_strlit("codecName");
    reveal_strlit("codecParameter");
    reveal_strlit("rtpProfile");
    reveal_strlit("rtpPayloadType");
    reveal_strlit("ssrc");
    reveal_strlit("targetDelay");
    reveal_strlit("aesKey");
    reveal_strlit("aesIvMask");
    reveal_strlit("timeBase");
    reveal_strlit("receiverRtcpEventLog");
    reveal_strlit("bitRate");
    reveal_strlit("channels");
    reveal_strlit("sampleRate");
    reveal_strlit("seqNum");
    reveal_strlit("offer");
    reveal_strlit("castMode");
    reveal_strlit("supportedStreams");
    assert("type"@[0] != "ssrc"@[0]);
    assert("codecName"@[0] != "aesIvMask"@[0]);
    assert("codecParameter"@[0] != "rtpPayloadType"@[0]);
    assert("timeBase"@[0] != "channels"@[0]);
    assert("rtpProfile"@[0] != "sampleRate"@[0]);
}

/// Whether a document offers one stream for mirroring, under a sequence number with the bits of
/// a request id, and which stream it is.
pub open spec fn offers_one_stream(document: Json, request_id: u64, stream: Json) -> bool {
    &&& document.text_at("type"@) == Some("OFFER"@)
    &&& match document.get("seqNum"@) {
        Some(Json::Unsigned(n)) => n == request_id && n < 0x8000_0000_0000_0000,
        Some(Json::Negative(n)) => n < 0 && n + 0x1_0000_0000_0000_0000 == request_id,
        _ => false,
    }
    &&& document.get("offer"@) is Some
    &&& document.get("offer"@)->0.text_at("castMode"@) == Some("mirroring"@)
    &&& document.get("offer"@)->0.list_at("supportedStreams"@) == Some(seq![stream])
}

/// An offer holds the stream that it is made of, and its request id.
pub proof fn offers_hold_their_stream(request_id: u64, stream: Json)
    ensures
        offers_one_stream(offer_document(request_id, stream), request_id, stream),
{
    lemma_stream_keys();
}

/// Whether a document describes a first stream of stereo Opus at 48 kHz and 128 kbit/s, sent in
/// Cast RTP with payload type 127 and played without delay.
pub open spec fn is_opus_stream(stream: Json) -> bool {
    &&& stream.unsigned_at("index"@) == Some(0u64)
    &&& stream.text_at("type"@) == Some("audio_source"@)
    &&& stream.text_at("codecName"@) == Some("opus"@)
    &&& stream.text_at("codecParameter"@) == Some(""@)
    &&& stream.text_at("rtpProfile"@) == Some("cast"@)
    &&& stream.unsigned_at("rtpPayloadType"@) == Some(127u64)
    &&& stream.unsigned_at("targetDelay"@) == Some(0u64)
    &&& stream.text_at("timeBase"@) == Some("1/"@ + crate::text::decimal(48_000))
    &&& stream.get("receiverRtcpEventLog"@) == Some(Json::Bool(false))
    &&& stream.unsigned_at("bitRate"@) == Some(128_000u64)
    &&& stream.unsigned_at("channels"@) == Some(2u64)
}

/// What is sent to offer a stream goes to the app, and describes one stream of stereo Opus at
/// 48 kHz, with the SSRC and the secrets of the offer.
pub proof fn offers_describe_their_stream(
    ids: &mut RequestIds,
    sender_id: &str,
    transport_id: &str,
    offer: &StreamOffer,
    message: CastMessage,
)
    requires
        call_ensures(send_offer, (ids, sender_id, transport_id, offer), message),
    ensures
        message@.source == sender_id@,
        message@.destination == transport_id@,
        message@.namespace == "urn:x-cast:com.google.cast.webrtc"@,
        final(ids).next == (old(ids).next + 1) % 0x1_0000_0000_0000_0000,
        json::parsed(message@.payload) is Some,
        exists|stream: Json| #[trigger]
            offers_one_stream(json::parsed(message@.payload)->0, old(ids).next, stream)
                && is_opus_stream(stream) && stream.unsigned_at("ssrc"@) == Some(offer.ssrc as u64)
                && stream.text_at("aesKey"@) == Some(crate::bytes::hex_text(offer.aes_key@))
                && stream.text_at("aesIvMask"@) == Some(crate::bytes::hex_text(offer.aes_iv_mask@)),
{
    let stream = stream_document(offer.ssrc, offer.aes_key@, offer.aes_iv_mask@);
    offers_hold_their_stream(old(ids).next, stream);
    lemma_stream_keys();
    assert(offers_one_stream(json::parsed(message@.payload)->0, old(ids).next, stream));
}

/// The whole numbers of a list are those of its parts, in order, and an item gives its own
/// value if it is a whole number and nothing if not.
pub proof fn whole_numbers_are_taken_in_order(first: Seq<Json>, second: Seq<Json>, item: Json)
    ensures
        whole_numbers(first + second) == whole_numbers(first) + whole_numbers(second),
        whole_numbers(seq![item]) == (match item {
            Json::Unsigned(n) => seq![n],
            _ => Seq::empty(),
        }),
    decreases second.len(),
{
    reveal_with_fuel(whole_numbers, 2);
    assert(seq![item].drop_last() =~= Seq::<Json>::empty());
    assert(seq![item].last() == item);
    assert(whole_numbers(seq![item]) =~= (match item {
        Json::Unsigned(n) => seq![n],
        _ => Seq::empty(),
    }));
    if second.len() == 0 {
        assert(first + second =~= first);
        assert(whole_numbers(first) + whole_numbers(second) =~= whole_numbers(first));
    } else {
        whole_numbers_are_taken_in_order(first, second.drop_last(), item);
        assert((first + second).drop_last() =~= first + second.drop_last());
        assert((first + second).last() == second.last());
        assert(whole_numbers(first + second) =~= whole_numbers(first) + whole_numbers(second));
    }
}

/// What an ANSWER comes to: if its result is ok and it gives a port from 1 to 65535, that port
/// and the accepted streams; and else what is wrong with it. What is no ANSWER on the right
/// namespace comes to nothing.
pub proof fn answers_give_port_and_streams(
    message: CastMessage,
    outcome: Option<Result<StreamAnswer, OfferError>>,
)
    requires
        call_ensures(on_answer_received, (Received::Message(message),), outcome),
    ensures
        ({
            let parsed = json::parsed(message@.payload);
            let document = parsed->0;
            let is_answer = message@.namespace == "urn:x-cast:com.google.cast.webrtc"@
                && parsed is Some && document.text_at("type"@) == Some("ANSWER"@);
            let is_ok = document.text_at("result"@) == Some("ok"@);
            let body = document.get("answer"@);
            let port = body->0.unsigned_at("udpPort"@);
            &&& !is_answer ==> outcome is None
            &&& is_answer && !is_ok ==> {
                outcome matches Some(Err(OfferError::Rejected(words))) && words@ == json::written(
                    document,
                )
            }
            &&& is_answer && is_ok && body is None ==> (outcome matches Some(
                Err(OfferError::NoAnswer),
            ))
            &&& is_answer && is_ok && body is Some && port is None ==> (outcome matches Some(
                Err(OfferError::NoUdpPort),
            ))
            &&& is_answer && is_ok && body is Some && port is Some && !(0 < port->0 < 0x1_0000)
                ==> {
                outcome matches Some(Err(OfferError::UdpPortOutOfRange(n))) && n == port->0
            }
            &&& is_answer && is_ok && body is Some && port is Some && 0 < port->0 < 0x1_0000 ==> {
                outcome matches Some(Ok(answer)) && answer.udp_port == port->0
                    && answer.send_indexes@ == (match body->0.list_at("sendIndexes"@) {
                    Some(items) => whole_numbers(items),
                    None => Seq::empty(),
                })
            }
        }),
{
}

/// While nothing has arrived an ANSWER is waited for, and not once the connection is gone.
pub proof fn answers_are_waited_for(
    received: Received,
    outcome: Option<Result<StreamAnswer, OfferError>>,
)
    requires
        call_ensures(on_answer_received, (received,), outcome),
    ensures
        received is Nothing ==> outcome is None,
        received is Disconnected ==> (outcome matches Some(Err(OfferError::ConnectionLost))),
{
}

/// Each look for a reply lasts half a second, or to the deadline if that comes first, and
/// after the deadline the waiting has failed.
pub proof fn replies_are_looked_for_to_the_deadline(
    launching: &Launching,
    elapsed_ns: u64,
    timeout_ns: u64,
    launch: Result<u64, LaunchError>,
    answer: Result<u64, OfferError>,
)
    requires
        call_ensures(Launching::next_poll, (launching, elapsed_ns, timeout_ns), launch),
        call_ensures(next_answer_poll, (elapsed_ns, timeout_ns), answer),
    ensures
        elapsed_ns >= timeout_ns ==> (launch matches Err(LaunchError::TimedOut)),
        elapsed_ns >= timeout_ns ==> (answer matches Err(OfferError::TimedOut)),
        elapsed_ns < timeout_ns ==> {
            &&& launch matches Ok(ns) && ns <= 500_000_000 && elapsed_ns + ns <= timeout_ns && (ns
                == 500_000_000 || elapsed_ns + ns == timeout_ns)
            &&& answer is Ok && answer->Ok_0 == launch->Ok_0
        },
{
}

/// A refusal is reported with the whole of the receiver's reply at the end, and a port that cannot
/// be used with its number.
pub proof fn refusals_quote_the_reply(
    launch: &LaunchError,
    launch_text: String,
    offer: &OfferError,
    offer_text: String,
)
    requires
        call_ensures(LaunchError::message, (launch,), launch_text),
        call_ensures(OfferError::message, (offer,), offer_text),
    ensures
        *launch matches LaunchError::Rejected(reply) ==> launch_text@
            == "Receiver rejected LAUNCH: "@ + reply@,
        *offer matches OfferError::Rejected(reply) ==> offer_text@ == "OFFER rejected: "@ + reply@,
        *offer matches OfferError::UdpPortOutOfRange(port) ==> offer_text@ == "udpPort "@
            + crate::text::decimal(port as nat) + " out of range (expected 1..=65535)"@,
{
}

} // verus!
