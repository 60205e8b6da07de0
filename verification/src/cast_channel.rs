//! Cast v2 channel: messages as length-prefixed protobuf, and what one end of the
//! channel does with what it receives.

use vstd::prelude::*;
use vstd::slice::slice_subrange;
use vstd::string::*;
use vstd::utf8::*;

use crate::bytes::push_be32;
use crate::bytes::read_be32;
use crate::json;
use crate::json::Json;
use crate::protobuf::read_varint;
use crate::protobuf::write_string;
use crate::protobuf::write_varint_field;
use crate::protobuf::VarintError;
use crate::text::push_decimal;
use crate::text::same_text;

verus! {

/// A message of the channel. Payloads are text.
#[derive(Debug, Clone)]
pub struct CastMessage {
    pub source: String,
    pub destination: String,
    pub namespace: String,
    pub payload: String,
}

/// The content of a message.
pub struct MessageView {
    pub source: Seq<char>,
    pub destination: Seq<char>,
    pub namespace: Seq<char>,
    pub payload: Seq<char>,
}

impl View for CastMessage {
    type V = MessageView;

    open spec fn view(&self) -> MessageView {
        MessageView {
            source: self.source@,
            destination: self.destination@,
            namespace: self.namespace@,
            payload: self.payload@,
        }
    }
}

/// Why bytes are not a message.
#[derive(Debug, Clone, Copy, PartialEq, Eq, Structural)]
pub enum DecodeError {
    /// A varint runs past the end of the data.
    VarintOverrun,
    /// A varint does not end within ten bytes.
    VarintTooLong,
    /// A length-delimited field claims more bytes than are left.
    FieldOverrun,
    /// A field is neither a varint nor length-delimited.
    UnsupportedWireType { wire: u8, tag: u32 },
}

impl DecodeError {
    /// What a varint that cannot be read means for the message.
    pub open spec fn of_varint(e: VarintError) -> DecodeError {
        match e {
            VarintError::Overrun => DecodeError::VarintOverrun,
            VarintError::TooLong => DecodeError::VarintTooLong,
        }
    }

    fn from_varint(e: VarintError) -> (error: DecodeError)
        ensures
            error == DecodeError::of_varint(e),
    {
        match e {
            VarintError::Overrun => DecodeError::VarintOverrun,
            VarintError::TooLong => DecodeError::VarintTooLong,
        }
    }
}

/// What `String::from_utf8_lossy` makes of bytes that are not UTF-8.
pub uninterp spec fn repaired_utf8(bytes: Seq<u8>) -> Seq<char>;

/// The text of a field: its bytes as UTF-8, repaired where they are not.
pub open spec fn lossy_text(bytes: Seq<u8>) -> Seq<char> {
    if valid_utf8(bytes) {
        decode_utf8(bytes)
    } else {
        repaired_utf8(bytes)
    }
}

/// Calls `String::from_utf8_lossy`: bytes that are UTF-8 are decoded as they are; others
/// give text that depends on the bytes alone, and of which nothing more is stated.
#[verifier::external_body]
fn text_from_utf8_lossy(bytes: &[u8]) -> (text: String)
    ensures
        valid_utf8(bytes@) ==> text@ == decode_utf8(bytes@),
        !valid_utf8(bytes@) ==> text@ == repaired_utf8(bytes@),
{
    String::from_utf8_lossy(bytes).into_owned()
}

impl MessageView {
    /// The message of which no field was given.
    pub open spec fn blank() -> MessageView {
        MessageView {
            source: Seq::empty(),
            destination: Seq::empty(),
            namespace: Seq::empty(),
            payload: Seq::empty(),
        }
    }

    /// The message with the field of a tag set; tags that carry no text field of a message
    /// change nothing.
    pub open spec fn with_field(self, tag: u32, text: Seq<char>) -> MessageView {
        if tag == 2 {
            MessageView { source: text, ..self }
        } else if tag == 3 {
            MessageView { destination: text, ..self }
        } else if tag == 4 {
            MessageView { namespace: text, ..self }
        } else if tag == 6 {
            MessageView { payload: text, ..self }
        } else {
            self
        }
    }

    /// The protobuf encoding: protocol version 0, the three addresses, payload type 0, and
    /// the payload.
    pub open spec fn encoded(self) -> Seq<u8> {
        crate::protobuf::varint_field(1, 0) + crate::protobuf::text_field(2, self.source)
            + crate::protobuf::text_field(3, self.destination) + crate::protobuf::text_field(
            4,
            self.namespace,
        ) + crate::protobuf::varint_field(5, 0) + crate::protobuf::text_field(6, self.payload)
    }
}

/// What the fields from `pos` on make of a message that the fields before it have set as
/// `message`: varint fields are passed over, later text fields replace earlier ones.
pub open spec fn decoded_from(data: Seq<u8>, pos: int, message: MessageView) -> Result<
    MessageView,
    DecodeError,
>
    decreases data.len() - pos,
{
    if pos < 0 || pos >= data.len() {
        Ok(message)
    } else {
        match crate::protobuf::varint_at(data, pos) {
            Err(e) => Err(DecodeError::of_varint(e)),
            Ok((key, body)) => {
                let tag = (key / 8) as u32;
                let wire = (key % 8) as u8;
                if wire == 0 {
                    match crate::protobuf::varint_at(data, body) {
                        Err(e) => Err(DecodeError::of_varint(e)),
                        Ok((_, next)) => decoded_from(data, next, message),
                    }
                } else if wire == 2 {
                    match crate::protobuf::varint_at(data, body) {
                        Err(e) => Err(DecodeError::of_varint(e)),
                        Ok((len, text)) => if len > data.len() - text {
                            Err(DecodeError::FieldOverrun)
                        } else {
                            decoded_from(
                                data,
                                text + len,
                                message.with_field(
                                    tag,
                                    lossy_text(data.subrange(text, text + len)),
                                ),
                            )
                        },
                    }
                } else {
                    Err(DecodeError::UnsupportedWireType { wire, tag })
                }
            },
        }
    }
}

/// The message that bytes encode.
pub open spec fn decoded(data: Seq<u8>) -> Result<MessageView, DecodeError> {
    decoded_from(data, 0, MessageView::blank())
}

/// Encodes a message.
pub fn encode_cast_message(msg: &CastMessage) -> (bytes: Vec<u8>)
    ensures
        bytes@ == msg@.encoded(),
{
    let mut buf: Vec<u8> = Vec::new();
    write_varint_field(&mut buf, 1, 0);
    write_string(&mut buf, 2, msg.source.as_str());
    write_string(&mut buf, 3, msg.destination.as_str());
    write_string(&mut buf, 4, msg.namespace.as_str());
    write_varint_field(&mut buf, 5, 0);
    write_string(&mut buf, 6, msg.payload.as_str());
    assert(buf@ =~= msg@.encoded());
    buf
}

/// Decodes a message.
pub fn decode_cast_message(data: &[u8]) -> (result: Result<CastMessage, DecodeError>)
    ensures
        match decoded(data@) {
            Ok(message) => result is Ok && result->Ok_0@ == message,
            Err(e) => result is Err && result->Err_0 == e,
        },
{
    let len: usize = data.len();
    let mut pos: usize = 0;
    let mut msg = CastMessage {
        source: String::new(),
        destination: String::new(),
        namespace: String::new(),
        payload: String::new(),
    };
    while pos < len
        invariant
            len == data@.len(),
            pos <= len,
            decoded(data@) == decoded_from(data@, pos as int, msg@),
        decreases len - pos,
    {
        let key: u64 = match read_varint(data, &mut pos) {
            Ok(v) => v,
            Err(e) => return Err(DecodeError::from_varint(e)),
        };
        let tag: u32 = (key / 8) as u32;
        let wire: u8 = (key % 8) as u8;
        if wire == 0 {
            match read_varint(data, &mut pos) {
                Ok(_) => {},
                Err(e) => return Err(DecodeError::from_varint(e)),
            }
        } else if wire == 2 {
            let declared: u64 = match read_varint(data, &mut pos) {
                Ok(v) => v,
                Err(e) => return Err(DecodeError::from_varint(e)),
            };
            if declared > (len - pos) as u64 {
                return Err(DecodeError::FieldOverrun);
            }
            let field_len: usize = declared as usize;
            let text = text_from_utf8_lossy(slice_subrange(data, pos, pos + field_len));
            pos = pos + field_len;
            if tag == 2 {
                msg.source = text;
            } else if tag == 3 {
                msg.destination = text;
            } else if tag == 4 {
                msg.namespace = text;
            } else if tag == 6 {
                msg.payload = text;
            }
        } else {
            return Err(DecodeError::UnsupportedWireType { wire, tag });
        }
    }
    Ok(msg)
}

/// A varint field that stands at `pos` is passed over.
proof fn lemma_varint_field_decodes(data: Seq<u8>, pos: int, tag: u32, v: u64, message: MessageView)
    requires
        0 <= pos,
        pos + crate::protobuf::varint_field(tag, v).len() <= data.len(),
        data.subrange(pos, pos + crate::protobuf::varint_field(tag, v).len())
            == crate::protobuf::varint_field(tag, v),
    ensures
        decoded_from(data, pos, message) == decoded_from(
            data,
            pos + crate::protobuf::varint_field(tag, v).len(),
            message,
        ),
{
    let field = crate::protobuf::varint_field(tag, v);
    let key = crate::protobuf::varint(tag as nat * 8);
    let value = crate::protobuf::varint(v as nat);
    assert(data.subrange(pos, pos + key.len()) =~= field.subrange(0, key.len() as int));
    assert(key =~= field.subrange(0, key.len() as int));
    crate::protobuf::varint_reads_back(data, pos, (tag * 8) as u64);
    let body = pos + key.len();
    assert(data.subrange(body, body + value.len()) =~= field.subrange(
        key.len() as int,
        field.len() as int,
    ));
    assert(value =~= field.subrange(key.len() as int, field.len() as int));
    crate::protobuf::varint_reads_back(data, body, v);
}

/// A text field that stands at `pos` sets its field to the text that was written.
proof fn lemma_text_field_decodes(
    data: Seq<u8>,
    pos: int,
    tag: u32,
    text: Seq<char>,
    message: MessageView,
)
    requires
        0 <= pos,
        pos + crate::protobuf::text_field(tag, text).len() <= data.len(),
        data.len() <= u64::MAX,
        data.subrange(pos, pos + crate::protobuf::text_field(tag, text).len())
            == crate::protobuf::text_field(tag, text),
    ensures
        decoded_from(data, pos, message) == decoded_from(
            data,
            pos + crate::protobuf::text_field(tag, text).len(),
            message.with_field(tag, text),
        ),
{
    let field = crate::protobuf::text_field(tag, text);
    let bytes = encode_utf8(text);
    let key = crate::protobuf::varint(tag as nat * 8 + 2);
    let size = crate::protobuf::varint(bytes.len());
    let head = key.len() + size.len();
    assert(data.subrange(pos, pos + key.len()) =~= field.subrange(0, key.len() as int));
    assert(key =~= field.subrange(0, key.len() as int));
    crate::protobuf::varint_reads_back(data, pos, (tag * 8 + 2) as u64);
    let body = pos + key.len();
    assert(data.subrange(body, body + size.len()) =~= field.subrange(key.len() as int, head as int));
    assert(size =~= field.subrange(key.len() as int, head as int));
    crate::protobuf::varint_reads_back(data, body, bytes.len() as u64);
    let start = body + size.len();
    assert(data.subrange(start, start + bytes.len()) =~= field.subrange(
        head as int,
        field.len() as int,
    ));
    assert(bytes =~= field.subrange(head as int, field.len() as int));
    encode_utf8_valid_utf8(text);
    encode_utf8_decode_utf8(text);
}

/// Every message decodes from its encoding.
pub proof fn decoding_undoes_encoding(message: MessageView)
    requires
        message.encoded().len() <= u64::MAX,
    ensures
        decoded(message.encoded()) == Ok::<MessageView, DecodeError>(message),
{
    let data = message.encoded();
    let f1 = crate::protobuf::varint_field(1, 0);
    let f2 = crate::protobuf::text_field(2, message.source);
    let f3 = crate::protobuf::text_field(3, message.destination);
    let f4 = crate::protobuf::text_field(4, message.namespace);
    let f5 = crate::protobuf::varint_field(5, 0);
    let f6 = crate::protobuf::text_field(6, message.payload);
    let p1 = f1.len() as int;
    let p2 = p1 + f2.len();
    let p3 = p2 + f3.len();
    let p4 = p3 + f4.len();
    let p5 = p4 + f5.len();
    let p6 = p5 + f6.len();
    let m0 = MessageView::blank();
    let m2 = m0.with_field(2, message.source);
    let m3 = m2.with_field(3, message.destination);
    let m4 = m3.with_field(4, message.namespace);
    assert(data.subrange(0, p1) =~= f1);
    lemma_varint_field_decodes(data, 0, 1, 0, m0);
    assert(data.subrange(p1, p2) =~= f2);
    lemma_text_field_decodes(data, p1, 2, message.source, m0);
    assert(data.subrange(p2, p3) =~= f3);
    lemma_text_field_decodes(data, p2, 3, message.destination, m2);
    assert(data.subrange(p3, p4) =~= f4);
    lemma_text_field_decodes(data, p3, 4, message.namespace, m3);
    assert(data.subrange(p4, p5) =~= f5);
    lemma_varint_field_decodes(data, p4, 5, 0, m4);
    assert(data.subrange(p5, p6) =~= f6);
    lemma_text_field_decodes(data, p5, 6, message.payload, m4);
    assert(m4.with_field(6, message.payload) == message);
}

/// Whether the fields from `pos` on hold a text field of a tag.
pub open spec fn sets_field(data: Seq<u8>, pos: int, tag: u32) -> bool
    decreases data.len() - pos,
{
    if pos < 0 || pos >= data.len() {
        false
    } else {
        match crate::protobuf::varint_at(data, pos) {
            Err(_) => false,
            Ok((key, body)) => match crate::protobuf::varint_at(data, body) {
                Err(_) => false,
                Ok((value, next)) => if key % 8 == 0 {
                    sets_field(data, next, tag)
                } else if key % 8 == 2 && value <= data.len() - next {
                    (key / 8) as u32 == tag || sets_field(data, next + value, tag)
                } else {
                    false
                },
            },
        }
    }
}

/// The message `later`, which `data` encodes, over the message `earlier`: the fields that the
/// data do not set are as they were.
pub open spec fn overlaid(earlier: MessageView, data: Seq<u8>, later: MessageView) -> MessageView {
    MessageView {
        source: if sets_field(data, 0, 2) {
            later.source
        } else {
            earlier.source
        },
        destination: if sets_field(data, 0, 3) {
            later.destination
        } else {
            earlier.destination
        },
        namespace: if sets_field(data, 0, 4) {
            later.namespace
        } else {
            earlier.namespace
        },
        payload: if sets_field(data, 0, 6) {
            later.payload
        } else {
            earlier.payload
        },
    }
}

/// Fields that decode go on to decode when more data follow them.
proof fn lemma_decoded_prefix(first: Seq<u8>, second: Seq<u8>, pos: int, message: MessageView)
    requires
        0 <= pos <= first.len(),
        decoded_from(first, pos, message) is Ok,
    ensures
        decoded_from(first + second, pos, message) == decoded_from(
            first + second,
            first.len() as int,
            decoded_from(first, pos, message)->Ok_0,
        ),
    decreases first.len() - pos,
{
    if pos < first.len() {
        crate::protobuf::varints_end_by_themselves(first, second, pos);
        let (key, body) = crate::protobuf::varint_at(first, pos)->Ok_0;
        crate::protobuf::varints_end_by_themselves(first, second, body);
        let (value, next) = crate::protobuf::varint_at(first, body)->Ok_0;
        if key % 8 == 0 {
            lemma_decoded_prefix(first, second, next, message);
        } else {
            let text = first.subrange(next, next + value);
            assert((first + second).subrange(next, next + value) =~= text);
            lemma_decoded_prefix(
                first,
                second,
                next + value,
                message.with_field((key / 8) as u32, lossy_text(text)),
            );
        }
    }
}

/// Fields decode alike wherever they stand.
proof fn lemma_decoded_suffix(first: Seq<u8>, second: Seq<u8>, pos: int, message: MessageView)
    requires
        0 <= pos,
    ensures
        decoded_from(first + second, first.len() + pos, message) == decoded_from(
            second,
            pos,
            message,
        ),
    decreases second.len() - pos,
{
    if pos < second.len() {
        crate::protobuf::varints_begin_by_themselves(first, second, pos);
        match crate::protobuf::varint_at(second, pos) {
            Err(_) => {},
            Ok((key, body)) => {
                crate::protobuf::varints_begin_by_themselves(first, second, body);
                match crate::protobuf::varint_at(second, body) {
                    Err(_) => {},
                    Ok((value, next)) => {
                        if key % 8 == 0 {
                            lemma_decoded_suffix(first, second, next, message);
                        } else if key % 8 == 2 && value <= second.len() - next {
                            let text = second.subrange(next, next + value);
                            assert((first + second).subrange(
                                first.len() + next,
                                first.len() + next + value,
                            ) =~= text);
                            lemma_decoded_suffix(
                                first,
                                second,
                                next + value,
                                message.with_field((key / 8) as u32, lossy_text(text)),
                            );
                        }
                    },
                }
            },
        }
    }
}

/// What fields do to a message: they set what they hold, and leave the rest.
proof fn lemma_decoded_over(data: Seq<u8>, pos: int, one: MessageView, other: MessageView)
    requires
        0 <= pos,
    ensures
        match (decoded_from(data, pos, one), decoded_from(data, pos, other)) {
            (Ok(a), Ok(b)) => {
                &&& if sets_field(data, pos, 2) { a.source == b.source } else {
                    a.source == one.source && b.source == other.source
                }
                &&& if sets_field(data, pos, 3) { a.destination == b.destination } else {
                    a.destination == one.destination && b.destination == other.destination
                }
                &&& if sets_field(data, pos, 4) { a.namespace == b.namespace } else {
                    a.namespace == one.namespace && b.namespace == other.namespace
                }
                &&& if sets_field(data, pos, 6) { a.payload == b.payload } else {
                    a.payload == one.payload && b.payload == other.payload
                }
            },
            (Err(a), Err(b)) => a == b,
            _ => false,
        },
    decreases data.len() - pos,
{
    if pos < data.len() {
        match crate::protobuf::varint_at(data, pos) {
            Err(_) => {},
            Ok((key, body)) => match crate::protobuf::varint_at(data, body) {
                Err(_) => {},
                Ok((value, next)) => {
                    if key % 8 == 0 {
                        lemma_decoded_over(data, next, one, other);
                    } else if key % 8 == 2 && value <= data.len() - next {
                        let tag = (key / 8) as u32;
                        let text = lossy_text(data.subrange(next, next + value));
                        lemma_decoded_over(
                            data,
                            next + value,
                            one.with_field(tag, text),
                            other.with_field(tag, text),
                        );
                    }
                },
            },
        }
    }
}

/// Data of two messages, one after the other, decode as the second over the first: each text
/// field that the second holds replaces that of the first. If the second do not decode,
/// neither do both.
pub proof fn later_fields_replace_earlier_ones(first: Seq<u8>, second: Seq<u8>)
    requires
        decoded(first) is Ok,
    ensures
        decoded(first + second) == (match decoded(second) {
            Ok(later) => Ok::<MessageView, DecodeError>(
                overlaid(decoded(first)->Ok_0, second, later),
            ),
            Err(e) => Err(e),
        }),
{
    let earlier = decoded(first)->Ok_0;
    lemma_decoded_prefix(first, second, 0, MessageView::blank());
    lemma_decoded_suffix(first, second, 0, earlier);
    lemma_decoded_over(second, 0, MessageView::blank(), earlier);
}

pub const NS_CONNECTION: &'static str = "urn:x-cast:com.google.cast.tp.connection";
pub const NS_HEARTBEAT: &'static str = "urn:x-cast:com.google.cast.tp.heartbeat";
pub const NS_RECEIVER: &'static str = "urn:x-cast:com.google.cast.receiver";
pub const NS_WEBRTC: &'static str = "urn:x-cast:com.google.cast.webrtc";

/// The address of a device itself, as opposed to an app that runs on it.
pub const PLATFORM_RECEIVER_ID: &'static str = "receiver-0";

/// Chromium's `kVirtualConnectionClosedByPeer`.
pub const CLOSE_REASON_CLOSED_BY_PEER: u64 = 5;

/// The largest message body that a frame may declare, openscreen's `kMaxBodySize`.
pub const MAX_BODY_SIZE: usize = 65536;

/// Milliseconds between two PINGs.
pub const HEARTBEAT_INTERVAL_MS: u64 = 5_000;

/// Milliseconds without any data after which the channel counts as dead. Two heartbeat
/// intervals, so that a single dropped PONG is not fatal.
pub const LIVENESS_TIMEOUT_MS: u64 = 10_000;

/// What stands at the start of a stream of frames, each a body with its length before it.
pub enum FrameView {
    /// The first frame is not complete.
    Incomplete,
    /// The first frame declares a body over the limit.
    Oversized(u32),
    /// The first frame, and what follows it.
    Complete { body: Seq<u8>, rest: Seq<u8> },
}

/// The first frame of a stream. The declared length is held against the limit before the
/// body is waited for.
pub open spec fn first_frame(stream: Seq<u8>, limit: u32) -> FrameView {
    if stream.len() < 4 {
        FrameView::Incomplete
    } else {
        let len = crate::bytes::be32_value(stream);
        if len > limit {
            FrameView::Oversized(len)
        } else if stream.len() < 4 + len {
            FrameView::Incomplete
        } else {
            FrameView::Complete {
                body: stream.subrange(4, 4 + len),
                rest: stream.skip(4 + len),
            }
        }
    }
}

/// A body with its length before it.
pub open spec fn framed(body: Seq<u8>) -> Seq<u8> {
    crate::bytes::be32(body.len() as u32) + body
}

/// A frame that declares more than the channel accepts.
#[derive(Debug, Clone, Copy, PartialEq, Eq, Structural)]
pub struct FrameError {
    pub declared: u32,
}

/// Takes the first frame off a stream, if it is complete and within the limit.
pub(crate) fn split_frame(acc: &mut Vec<u8>, limit: u32) -> (result: Result<
    Option<Vec<u8>>,
    FrameError,
>)
    ensures
        match first_frame(old(acc)@, limit) {
            FrameView::Incomplete => result is Ok && result->Ok_0 is None && final(acc)@ == old(acc)@,
            FrameView::Oversized(n) => result is Err && result->Err_0.declared == n && final(acc)@
                == old(acc)@,
            FrameView::Complete { body, rest } => result is Ok && result->Ok_0 is Some
                && result->Ok_0->0@ == body && final(acc)@ == rest,
        },
{
    if acc.len() < 4 {
        return Ok(None);
    }
    let declared: u32 = read_be32(acc);
    if declared > limit {
        return Err(FrameError { declared });
    }
    if acc.len() - 4 < declared as usize {
        return Ok(None);
    }
    let ghost stream = acc@;
    let mut rest: Vec<u8> = acc.split_off(4 + declared as usize);
    let body: Vec<u8> = acc.split_off(4);
    core::mem::swap(acc, &mut rest);
    proof {
        assert(body@ =~= stream.subrange(4, 4 + declared));
        assert(acc@ =~= stream.skip(4 + declared));
    }
    Ok(Some(body))
}

/// Takes the first frame off the bytes received so far. `Ok(None)` means that more bytes
/// are needed; an error means that the framing is lost.
pub fn take_frame(acc: &mut Vec<u8>) -> (result: Result<Option<Vec<u8>>, FrameError>)
    ensures
        match first_frame(old(acc)@, MAX_BODY_SIZE as u32) {
            FrameView::Incomplete => result is Ok && result->Ok_0 is None && final(acc)@ == old(acc)@,
            FrameView::Oversized(n) => result is Err && result->Err_0.declared == n && final(acc)@
                == old(acc)@,
            FrameView::Complete { body, rest } => result is Ok && result->Ok_0 is Some
                && result->Ok_0->0@ == body && final(acc)@ == rest,
        },
{
    split_frame(acc, MAX_BODY_SIZE as u32)
}

/// A message as it goes over the wire.
pub fn frame_message(msg: &CastMessage) -> (bytes: Vec<u8>)
    ensures
        bytes@ == framed(msg@.encoded()),
{
    let body: Vec<u8> = encode_cast_message(msg);
    let mut bytes: Vec<u8> = Vec::new();
    push_be32(&mut bytes, body.len() as u32);
    bytes.extend_from_slice(body.as_slice());
    assert(bytes@ =~= framed(msg@.encoded()));
    bytes
}

/// Whether a document is an object whose `type` is the given text.
pub open spec fn has_type(document: Json, expected: Seq<char>) -> bool {
    document.text_at("type"@) == Some(expected)
}

/// Whether a payload is a JSON object whose `type` is the given text.
pub open spec fn payload_has_type(payload: Seq<char>, expected: Seq<char>) -> bool {
    match json::parsed(payload) {
        Some(document) => has_type(document, expected),
        None => false,
    }
}

/// Whether a document is an object whose `type` is `expected`.
pub fn value_type_is(value: &serde_json::Value, expected: &str) -> (is: bool)
    ensures
        is == has_type(json::document(*value), expected@),
{
    match json::text_at(value, "type") {
        Some(kind) => same_text(kind, expected),
        None => false,
    }
}

/// Whether `payload` is a JSON object whose `type` is `expected`. A real parse, not a
/// substring match, decides what happens to heartbeats and session closes.
pub fn payload_type_is(payload: &str, expected: &str) -> (is: bool)
    ensures
        is == payload_has_type(payload@, expected@),
{
    match json::parse(payload) {
        Some(value) => value_type_is(&value, expected),
        None => false,
    }
}

/// What one end of the channel does about a frame that it received.
#[derive(Debug)]
pub enum Action {
    /// Send this back at once.
    Send(CastMessage),
    /// Hand this to the caller.
    Forward(CastMessage),
    /// Nothing but report that the frame held no message.
    Discard(DecodeError),
}

/// The content of an action.
pub enum ActionView {
    Send(MessageView),
    Forward(MessageView),
    Discard(DecodeError),
}

impl View for Action {
    type V = ActionView;

    open spec fn view(&self) -> ActionView {
        match self {
            Action::Send(msg) => ActionView::Send(msg@),
            Action::Forward(msg) => ActionView::Forward(msg@),
            Action::Discard(e) => ActionView::Discard(*e),
        }
    }
}

/// The contents of a list of actions.
pub open spec fn action_views(actions: Seq<Action>) -> Seq<ActionView> {
    actions.map_values(|action: Action| action@)
}

/// The heartbeat question to a device.
pub open spec fn ping_view(sender_id: Seq<char>) -> MessageView {
    MessageView {
        source: sender_id,
        destination: PLATFORM_RECEIVER_ID@,
        namespace: NS_HEARTBEAT@,
        payload: "{\"type\":\"PING\"}"@,
    }
}

/// The answer to a heartbeat question.
pub open spec fn pong_view(sender_id: Seq<char>, asker: Seq<char>) -> MessageView {
    MessageView {
        source: sender_id,
        destination: asker,
        namespace: NS_HEARTBEAT@,
        payload: "{\"type\":\"PONG\"}"@,
    }
}

/// What is done about a message, given whether its payload is a PING: heartbeats stay
/// inside the channel and PINGs are answered, everything else is for the caller.
pub open spec fn reaction(message: MessageView, is_ping: bool, sender_id: Seq<char>) -> Option<
    ActionView,
> {
    if message.namespace == NS_HEARTBEAT@ {
        if is_ping {
            Some(ActionView::Send(pong_view(sender_id, message.source)))
        } else {
            None
        }
    } else {
        Some(ActionView::Forward(message))
    }
}

/// What is done about the body of a frame.
pub open spec fn frame_reaction(body: Seq<u8>, sender_id: Seq<char>) -> Option<ActionView> {
    match decoded(body) {
        Ok(message) => reaction(message, payload_has_type(message.payload, "PING"@), sender_id),
        Err(e) => Some(ActionView::Discard(e)),
    }
}

/// A heartbeat question.
pub fn ping(sender_id: &str) -> (msg: CastMessage)
    ensures
        msg@ == ping_view(sender_id@),
{
    CastMessage {
        source: sender_id.to_owned(),
        destination: PLATFORM_RECEIVER_ID.to_owned(),
        namespace: NS_HEARTBEAT.to_owned(),
        payload: "{\"type\":\"PING\"}".to_owned(),
    }
}

/// The answer to a heartbeat question from `asker`.
pub fn pong(sender_id: &str, asker: &str) -> (msg: CastMessage)
    ensures
        msg@ == pong_view(sender_id@, asker@),
{
    CastMessage {
        source: sender_id.to_owned(),
        destination: asker.to_owned(),
        namespace: NS_HEARTBEAT.to_owned(),
        payload: "{\"type\":\"PONG\"}".to_owned(),
    }
}

/// What to do about a message, given whether its payload is a PING.
pub fn react(msg: CastMessage, is_ping: bool, sender_id: &str) -> (action: Option<Action>)
    ensures
        match reaction(msg@, is_ping, sender_id@) {
            Some(view) => action is Some && action->0@ == view,
            None => action is None,
        },
{
    if same_text(msg.namespace.as_str(), NS_HEARTBEAT) {
        if is_ping {
            Some(Action::Send(pong(sender_id, msg.source.as_str())))
        } else {
            None
        }
    } else {
        Some(Action::Forward(msg))
    }
}

/// What to do about the body of a frame.
pub fn react_to_frame(body: &[u8], sender_id: &str) -> (action: Option<Action>)
    ensures
        match frame_reaction(body@, sender_id@) {
            Some(view) => action is Some && action->0@ == view,
            None => action is None,
        },
{
    match decode_cast_message(body) {
        Ok(msg) => {
            let is_ping = payload_type_is(msg.payload.as_str(), "PING");
            react(msg, is_ping, sender_id)
        },
        Err(e) => Some(Action::Discard(e)),
    }
}

/// What a stream of frames leads to.
pub struct Drained {
    /// What is done about the complete frames, in their order.
    pub actions: Seq<ActionView>,
    /// The bytes after the complete frames.
    pub rest: Seq<u8>,
    /// The length that the frame at the start of `rest` declares, when it is over the limit.
    pub lost: Option<u32>,
}

/// What the frames at the start of a stream lead to, one after the other.
pub open spec fn drained(stream: Seq<u8>, sender_id: Seq<char>) -> Drained
    decreases stream.len(),
{
    match first_frame(stream, MAX_BODY_SIZE as u32) {
        FrameView::Incomplete => Drained { actions: Seq::empty(), rest: stream, lost: None },
        FrameView::Oversized(n) => Drained { actions: Seq::empty(), rest: stream, lost: Some(n) },
        FrameView::Complete { body, rest } => {
            let later = drained(rest, sender_id);
            let first = match frame_reaction(body, sender_id) {
                Some(action) => seq![action],
                None => Seq::empty(),
            };
            Drained { actions: first + later.actions, ..later }
        },
    }
}

/// How often a peer is asked whether it is alive, and when it counts as dead, with the
/// bytes that have arrived of frames that are not complete. Times are milliseconds of one
/// clock.
pub struct Dispatcher {
    sender_id: String,
    acc: Vec<u8>,
    last_ping: u64,
    last_rx: u64,
}

/// The state of a dispatcher.
pub struct DispatcherView {
    pub sender_id: Seq<char>,
    pub pending: Seq<u8>,
    pub last_ping: u64,
    pub last_rx: u64,
}

impl View for Dispatcher {
    type V = DispatcherView;

    closed spec fn view(&self) -> DispatcherView {
        DispatcherView {
            sender_id: self.sender_id@,
            pending: self.acc@,
            last_ping: self.last_ping,
            last_rx: self.last_rx,
        }
    }
}

/// What a read from the socket came to.
#[derive(Debug)]
pub enum ReadEvent {
    /// Bytes arrived; none at all means that the peer closed the connection.
    Data(Vec<u8>),
    /// Nothing to read right now.
    WouldBlock,
    /// Nothing to read within the poll interval.
    TimedOut,
    /// The peer dropped the connection without a closing handshake, as these devices do.
    UnexpectedEof,
    /// Any other failure.
    OtherError,
}

/// Why a session is over.
#[derive(Debug, Clone, Copy, PartialEq, Eq, Structural)]
pub enum SessionEnd {
    PeerClosed,
    ReadFailed,
    FramingLost(FrameError),
}

impl DispatcherView {
    /// How a read ends the session by itself, if it does.
    pub open spec fn read_ends(event: ReadEvent) -> Option<SessionEnd> {
        match event {
            ReadEvent::Data(bytes) => if bytes@.len() == 0 {
                Some(SessionEnd::PeerClosed)
            } else {
                None
            },
            ReadEvent::WouldBlock => None,
            ReadEvent::TimedOut => None,
            ReadEvent::UnexpectedEof => Some(SessionEnd::PeerClosed),
            ReadEvent::OtherError => Some(SessionEnd::ReadFailed),
        }
    }

    /// The bytes that a read brought.
    pub open spec fn read_bytes(event: ReadEvent) -> Seq<u8> {
        match event {
            ReadEvent::Data(bytes) => bytes@,
            _ => Seq::empty(),
        }
    }
}

impl Dispatcher {
    /// A dispatcher for a connection that was opened at `now`.
    pub fn new(sender_id: String, now: u64) -> (dispatcher: Dispatcher)
        ensures
            dispatcher@ == (DispatcherView {
                sender_id: sender_id@,
                pending: Seq::empty(),
                last_ping: now,
                last_rx: now,
            }),
    {
        Dispatcher { sender_id, acc: Vec::new(), last_ping: now, last_rx: now }
    }

    /// Takes in what a read at `now` came to: what to do about it, and whether the session
    /// is over after that.
    pub fn on_read(&mut self, event: ReadEvent, now: u64) -> (step: (
        Vec<Action>,
        Option<SessionEnd>,
    ))
        ensures
            match DispatcherView::read_ends(event) {
                Some(end) => step.0@.len() == 0 && step.1 == Some(end) && final(self)@ == old(self)@,
                None => {
                    let bytes = DispatcherView::read_bytes(event);
                    let after = drained(old(self)@.pending + bytes, old(self)@.sender_id);
                    &&& action_views(step.0@) == after.actions
                    &&& step.1 == (match after.lost {
                        Some(declared) => Some(
                            SessionEnd::FramingLost(FrameError { declared }),
                        ),
                        None => None,
                    })
                    &&& final(self)@ == (DispatcherView {
                        pending: after.rest,
                        last_rx: if bytes.len() > 0 {
                            now
                        } else {
                            old(self)@.last_rx
                        },
                        ..old(self)@
                    })
                },
            },
    {
        match event {
            ReadEvent::Data(bytes) => {
                if bytes.len() == 0 {
                    return (Vec::new(), Some(SessionEnd::PeerClosed));
                }
                self.acc.extend_from_slice(bytes.as_slice());
                self.last_rx = now;
                assert(self.acc@ =~= old(self).acc@ + bytes@);
            },
            ReadEvent::WouldBlock | ReadEvent::TimedOut => {
                assert(self.acc@ =~= old(self).acc@ + Seq::<u8>::empty());
            },
            ReadEvent::UnexpectedEof => {
                return (Vec::new(), Some(SessionEnd::PeerClosed));
            },
            ReadEvent::OtherError => {
                return (Vec::new(), Some(SessionEnd::ReadFailed));
            },
        }
        let ghost stream = self.acc@;
        let ghost id = self.sender_id@;
        let mut actions: Vec<Action> = Vec::new();
        assert(action_views(actions@) + drained(stream, id).actions =~= drained(stream, id).actions);
        loop
            invariant
                id == self.sender_id@,
                self.sender_id == old(self).sender_id,
                self.last_ping == old(self).last_ping,
                action_views(actions@) + drained(self.acc@, id).actions == drained(
                    stream,
                    id,
                ).actions,
                drained(self.acc@, id).rest == drained(stream, id).rest,
                drained(self.acc@, id).lost == drained(stream, id).lost,
                DispatcherView::read_ends(event) is None,
                stream == old(self)@.pending + DispatcherView::read_bytes(event),
                id == old(self)@.sender_id,
                self.last_rx == (if DispatcherView::read_bytes(event).len() > 0 {
                    now
                } else {
                    old(self)@.last_rx
                }),
            decreases self.acc@.len(),
        {
            let ghost before = action_views(actions@);
            let ghost later = drained(self.acc@, id);
            match take_frame(&mut self.acc) {
                Ok(Some(body)) => {
                    match react_to_frame(body.as_slice(), self.sender_id.as_str()) {
                        Some(action) => {
                            let ghost view = action@;
                            actions.push(action);
                            assert(action_views(actions@) =~= before.push(view));
                            assert(before.push(view) + drained(self.acc@, id).actions =~= before
                                + later.actions);
                        },
                        None => {
                            assert(later.actions =~= drained(self.acc@, id).actions);
                        },
                    }
                },
                Ok(None) => {
                    assert(before + later.actions =~= before);
                    return (actions, None);
                },
                Err(e) => {
                    assert(before + later.actions =~= before);
                    return (actions, Some(SessionEnd::FramingLost(e)));
                },
            }
        }
    }

    /// The PING that is due at `now`, if one is.
    pub fn heartbeat(&self, now: u64) -> (msg: Option<CastMessage>)
        ensures
            msg is Some == (now - self@.last_ping >= HEARTBEAT_INTERVAL_MS),
            msg is Some ==> msg->0@ == ping_view(self@.sender_id),
    {
        if now >= self.last_ping && now - self.last_ping >= HEARTBEAT_INTERVAL_MS {
            Some(ping(self.sender_id.as_str()))
        } else {
            None
        }
    }

    /// Notes that a PING was sent at `now`.
    pub fn pinged(&mut self, now: u64)
        ensures
            final(self)@ == (DispatcherView { last_ping: now, ..old(self)@ }),
    {
        self.last_ping = now;
    }

    /// Whether nothing has been received for so long that the peer must be gone.
    pub fn is_silent(&self, now: u64) -> (silent: bool)
        ensures
            silent == (now - self@.last_rx >= LIVENESS_TIMEOUT_MS),
    {
        now >= self.last_rx && now - self.last_rx >= LIVENESS_TIMEOUT_MS
    }
}

/// What an attempt to send the next message of the outbound queue came to.
#[derive(Debug, Clone, Copy, PartialEq, Eq, Structural)]
pub enum OutboundEvent {
    /// A message was taken from the queue and written.
    Sent,
    /// A message was taken from the queue and could not be written.
    SendFailed,
    /// The queue is empty.
    Empty,
    /// The queue is empty and nobody can fill it any more.
    Disconnected,
}

/// What the loop of a session does next.
#[derive(Debug, Clone, Copy, PartialEq, Eq, Structural)]
pub enum Phase {
    /// Read from the socket.
    Read,
    /// Send the next message of the outbound queue.
    Send,
    /// Send a PING if one is due, and look whether the peer is silent.
    Beat,
    /// Send the next message that was queued before the end.
    Flush,
    /// Nothing more: the session is over.
    Over,
}

/// What the loop did.
#[derive(Debug, Clone, Copy, PartialEq, Eq, Structural)]
pub enum LoopEvent {
    /// A read was handled, and ended the session or not.
    Handled(Option<SessionEnd>),
    /// An attempt to send what is queued.
    Tried(OutboundEvent),
    /// The heartbeat was looked after; whether the peer is silent, and whether the end of
    /// the session was asked for.
    Beaten { silent: bool, stop: bool },
    /// A PING or a PONG could not be written.
    HeartbeatFailed,
}

impl LoopEvent {
    /// Whether a write failed.
    pub open spec fn is_failed_write(self) -> bool {
        self == LoopEvent::HeartbeatFailed || self == LoopEvent::Tried(OutboundEvent::SendFailed)
    }
}

/// Where the loop of a session stands, and whether it ends after this round.
#[derive(Debug, Clone, Copy, PartialEq, Eq, Structural)]
pub struct SessionLoop {
    pub phase: Phase,
    pub ending: bool,
}

impl SessionLoop {
    /// The loop after something was done in its phase. Any write error ends the session at
    /// once: a partial write corrupts the framing of everything after it. Whatever else ended
    /// the session, messages that are still queued are sent.
    pub open spec fn after(self, event: LoopEvent) -> SessionLoop {
        if event.is_failed_write() {
            SessionLoop { phase: Phase::Over, ..self }
        } else {
            match (self.phase, event) {
                (Phase::Read, LoopEvent::Handled(None)) => SessionLoop {
                    phase: Phase::Send,
                    ..self
                },
                (Phase::Read, LoopEvent::Handled(Some(_))) => SessionLoop {
                    phase: Phase::Flush,
                    ..self
                },
                (Phase::Send, LoopEvent::Tried(OutboundEvent::Empty)) => SessionLoop {
                    phase: Phase::Beat,
                    ..self
                },
                (Phase::Send, LoopEvent::Tried(OutboundEvent::Disconnected)) => SessionLoop {
                    phase: Phase::Beat,
                    ending: true,
                },
                (Phase::Beat, LoopEvent::Beaten { silent, stop }) => SessionLoop {
                    phase: if silent || stop || self.ending {
                        Phase::Flush
                    } else {
                        Phase::Read
                    },
                    ..self
                },
                (Phase::Flush, LoopEvent::Tried(OutboundEvent::Empty)) => SessionLoop {
                    phase: Phase::Over,
                    ..self
                },
                (Phase::Flush, LoopEvent::Tried(OutboundEvent::Disconnected)) => SessionLoop {
                    phase: Phase::Over,
                    ..self
                },
                _ => self,
            }
        }
    }

    /// The loop after a series of events.
    pub open spec fn after_all(self, events: Seq<LoopEvent>) -> SessionLoop
        decreases events.len(),
    {
        if events.len() == 0 {
            self
        } else {
            self.after_all(events.drop_last()).after(events.last())
        }
    }

    /// The loop of a new session. If its end was asked for already, only the queue is flushed.
    pub fn new(stop: bool) -> (session: SessionLoop)
        ensures
            session == (SessionLoop {
                phase: if stop {
                    Phase::Flush
                } else {
                    Phase::Read
                },
                ending: false,
            }),
    {
        if stop {
            SessionLoop { phase: Phase::Flush, ending: false }
        } else {
            SessionLoop { phase: Phase::Read, ending: false }
        }
    }

    /// Notes what was done in the phase of the loop. What does not belong to the phase
    /// changes nothing.
    pub fn advance(&mut self, event: LoopEvent)
        ensures
            *final(self) == old(self).after(event),
    {
        match (self.phase, event) {
            (_, LoopEvent::HeartbeatFailed) => {
                self.phase = Phase::Over;
            },
            (_, LoopEvent::Tried(OutboundEvent::SendFailed)) => {
                self.phase = Phase::Over;
            },
            (Phase::Read, LoopEvent::Handled(None)) => {
                self.phase = Phase::Send;
            },
            (Phase::Read, LoopEvent::Handled(Some(_))) => {
                self.phase = Phase::Flush;
            },
            (Phase::Send, LoopEvent::Tried(OutboundEvent::Empty)) => {
                self.phase = Phase::Beat;
            },
            (Phase::Send, LoopEvent::Tried(OutboundEvent::Disconnected)) => {
                self.phase = Phase::Beat;
                self.ending = true;
            },
            (Phase::Beat, LoopEvent::Beaten { silent, stop }) => {
                if silent || stop || self.ending {
                    self.phase = Phase::Flush;
                } else {
                    self.phase = Phase::Read;
                }
            },
            (Phase::Flush, LoopEvent::Tried(OutboundEvent::Empty)) => {
                self.phase = Phase::Over;
            },
            (Phase::Flush, LoopEvent::Tried(OutboundEvent::Disconnected)) => {
                self.phase = Phase::Over;
            },
            _ => {},
        }
    }
}

/// The sender id with a number.
pub open spec fn sender_id_text(number: u32) -> Seq<char> {
    "sender-"@ + crate::text::decimal(number as nat)
}

/// The sender id with a number.
pub fn sender_id(number: u32) -> (id: String)
    ensures
        id@ == sender_id_text(number),
{
    let mut id: String = "sender-".to_owned();
    push_decimal(&mut id, number as u64);
    id
}

/// How many sender ids there are to draw from.
pub const SENDER_IDS: u32 = 1_000_000;

/// Calls `random_range` of `rand` over the numbers below a bound.
#[verifier::external_body]
fn random_below(bound: u32) -> (number: u32)
    requires
        bound > 0,
    ensures
        number < bound,
{
    rand::Rng::random_range(&mut rand::rng(), 0..bound)
}

/// Draws a sender id. One per run keeps a virtual connection that a prior run left on the
/// receiver from colliding with this one's.
pub fn draw_sender_id() -> (id: String)
    ensures
        exists|number: u32| number < SENDER_IDS && id@ == #[trigger] sender_id_text(number),
{
    let number: u32 = random_below(SENDER_IDS);
    sender_id(number)
}

/// A message with a JSON payload. Of a plain document the payload is also known to parse back
/// to it.
pub fn json_message(
    source: &str,
    destination: &str,
    namespace: &str,
    payload: &serde_json::Value,
) -> (msg: CastMessage)
    requires
        json::document(*payload).nests_within(json::max_levels()),
    ensures
        msg@ == (MessageView {
            source: source@,
            destination: destination@,
            namespace: namespace@,
            payload: json::written(json::document(*payload)),
        }),
        json::document(*payload).is_plain(json::max_levels()) ==> json::parsed(msg@.payload)
            == Some(json::document(*payload)),
{
    CastMessage {
        source: source.to_owned(),
        destination: destination.to_owned(),
        namespace: namespace.to_owned(),
        payload: json::write(payload),
    }
}

/// The name under which this sender introduces itself.
pub open spec fn user_agent(version: Seq<char>) -> Seq<char> {
    "chromecast-sink/"@ + version + " (Linux; Rust)"@
}

/// What Chromium calls a virtual connection request: a strong connection from a Linux
/// sender on the local network.
pub open spec fn connect_document(version: Seq<char>) -> Json {
    Json::Object(
        map![
            "type"@ => Json::Text("CONNECT"@),
            "userAgent"@ => Json::Text(user_agent(version)),
            "connType"@ => Json::Unsigned(0),
            "origin"@ => Json::Object(Map::empty()),
            "senderInfo"@ => Json::Object(map![
                "sdkType"@ => Json::Unsigned(2),
                "version"@ => Json::Text(version),
                "browserVersion"@ => Json::Text(version),
                "platform"@ => Json::Unsigned(6),
                "connectionType"@ => Json::Unsigned(1),
                "systemVersion"@ => Json::Text("Linux"@),
            ]),
        ],
    )
}

/// A request to close a virtual connection on purpose.
pub open spec fn close_document() -> Json {
    Json::Object(
        map![
            "type"@ => Json::Text("CLOSE"@),
            "reasonCode"@ => Json::Unsigned(CLOSE_REASON_CLOSED_BY_PEER),
        ],
    )
}

/// Builds a virtual connection request.
pub fn build_connect_payload(version: &str) -> (payload: serde_json::Value)
    ensures
        json::document(payload) == connect_document(version@),
        json::document(payload).is_plain(json::max_levels()),
        json::document(payload).nests_within(json::max_levels()),
{
    let mut agent: String = "chromecast-sink/".to_owned();
    agent.append(version);
    agent.append(" (Linux; Rust)");
    let mut info = json::new_object();
    json::set(&mut info, "sdkType", json::unsigned(2));
    json::set(&mut info, "version", json::text(version));
    json::set(&mut info, "browserVersion", json::text(version));
    json::set(&mut info, "platform", json::unsigned(6));
    json::set(&mut info, "connectionType", json::unsigned(1));
    json::set(&mut info, "systemVersion", json::text("Linux"));
    let mut payload = json::new_object();
    json::set(&mut payload, "type", json::text("CONNECT"));
    json::set(&mut payload, "userAgent", json::text(agent.as_str()));
    json::set(&mut payload, "connType", json::unsigned(0));
    json::set(&mut payload, "origin", json::new_object());
    json::set(&mut payload, "senderInfo", info);
    proof {
        reveal_with_fuel(Json::is_plain, 3);
        assert(json::document(info).is_plain(1));
        assert(json::document(payload).is_plain(2));
        json::document(payload).plain_allows_more(2, json::max_levels());
    }
    payload
}

/// Builds a request to close a virtual connection.
pub fn build_close_payload() -> (payload: serde_json::Value)
    ensures
        json::document(payload) == close_document(),
        json::document(payload).is_plain(json::max_levels()),
        json::document(payload).nests_within(json::max_levels()),
{
    let mut payload = json::new_object();
    json::set(&mut payload, "type", json::text("CLOSE"));
    json::set(&mut payload, "reasonCode", json::unsigned(CLOSE_REASON_CLOSED_BY_PEER));
    proof {
        reveal_with_fuel(Json::is_plain, 2);
        assert(json::document(payload).is_plain(1));
        json::document(payload).plain_allows_more(1, json::max_levels());
    }
    payload
}

/// The message that opens a virtual connection.
pub open spec fn connect_view(
    sender_id: Seq<char>,
    destination: Seq<char>,
    version: Seq<char>,
) -> MessageView {
    MessageView {
        source: sender_id,
        destination,
        namespace: NS_CONNECTION@,
        payload: json::written(connect_document(version)),
    }
}

/// The message that closes a virtual connection.
pub open spec fn close_view(sender_id: Seq<char>, destination: Seq<char>) -> MessageView {
    MessageView {
        source: sender_id,
        destination,
        namespace: NS_CONNECTION@,
        payload: json::written(close_document()),
    }
}

/// Opens a virtual connection to the platform or an app.
pub fn connect_transport(sender_id: &str, transport_id: &str, version: &str) -> (msg: CastMessage)
    ensures
        msg@ == connect_view(sender_id@, transport_id@, version@),
        json::parsed(msg@.payload) == Some(connect_document(version@)),
{
    json_message(sender_id, transport_id, NS_CONNECTION, &build_connect_payload(version))
}

/// Closes a virtual connection to the platform or an app.
pub fn close_transport(sender_id: &str, transport_id: &str) -> (msg: CastMessage)
    ensures
        msg@ == close_view(sender_id@, transport_id@),
        json::parsed(msg@.payload) == Some(close_document()),
{
    json_message(sender_id, transport_id, NS_CONNECTION, &build_close_payload())
}

impl DecodeError {
    /// What is wrong, in words.
    pub open spec fn words(self) -> Seq<char> {
        match self {
            DecodeError::VarintOverrun => "varint overruns buffer"@,
            DecodeError::VarintTooLong => "varint too long"@,
            DecodeError::FieldOverrun => "length-delimited field overruns buffer"@,
            DecodeError::UnsupportedWireType { wire, tag } => "unsupported wire type "@
                + crate::text::decimal(wire as nat) + " at tag "@ + crate::text::decimal(tag as nat),
        }
    }

    /// What is wrong, in words.
    pub fn message(&self) -> (text: String)
        ensures
            text@ == self.words(),
    {
        match self {
            DecodeError::VarintOverrun => "varint overruns buffer".to_owned(),
            DecodeError::VarintTooLong => "varint too long".to_owned(),
            DecodeError::FieldOverrun => "length-delimited field overruns buffer".to_owned(),
            DecodeError::UnsupportedWireType { wire, tag } => {
                let mut text: String = "unsupported wire type ".to_owned();
                push_decimal(&mut text, *wire as u64);
                text.append(" at tag ");
                push_decimal(&mut text, *tag as u64);
                text
            },
        }
    }
}

impl FrameError {
    /// What is wrong, in words.
    pub open spec fn words(self) -> Seq<char> {
        "frame declares "@ + crate::text::decimal(self.declared as nat) + " bytes, over the "@
            + crate::text::decimal(MAX_BODY_SIZE as nat) + "-byte maximum"@
    }

    /// What is wrong, in words.
    pub fn message(&self) -> (text: String)
        ensures
            text@ == self.words(),
    {
        let mut text: String = "frame declares ".to_owned();
        push_decimal(&mut text, self.declared as u64);
        text.append(" bytes, over the ");
        push_decimal(&mut text, MAX_BODY_SIZE as u64);
        text.append("-byte maximum");
        text
    }
}

/// A frame is taken off a stream as it was put on, and what follows it stays.
pub proof fn framing_is_undone(body: Seq<u8>, rest: Seq<u8>, limit: u32)
    requires
        body.len() <= limit,
    ensures
        first_frame(framed(body) + rest, limit) == (FrameView::Complete { body, rest }),
{
    let stream = framed(body) + rest;
    crate::bytes::be32_reads_back(body.len() as u32);
    assert(stream.take(4) =~= crate::bytes::be32(body.len() as u32));
    assert(stream[0] == stream.take(4)[0] && stream[1] == stream.take(4)[1] && stream[2]
        == stream.take(4)[2] && stream[3] == stream.take(4)[3]);
    assert(stream.subrange(4, 4 + body.len() as int) =~= body);
    assert(stream.skip(4 + body.len() as int) =~= rest);
}

/// What the frames of a stream hold: their bodies in order, the bytes after the last complete
/// frame, and the length that lost the framing, if one did.
#[verifier::ext_equal]
pub struct Cut {
    pub bodies: Seq<Seq<u8>>,
    pub rest: Seq<u8>,
    pub lost: Option<u32>,
}

/// The frames of a stream, taken off one after the other until none is left.
pub open spec fn cut(stream: Seq<u8>, limit: u32) -> Cut
    decreases stream.len(),
{
    match first_frame(stream, limit) {
        FrameView::Incomplete => Cut { bodies: Seq::empty(), rest: stream, lost: None },
        FrameView::Oversized(n) => Cut { bodies: Seq::empty(), rest: stream, lost: Some(n) },
        FrameView::Complete { body, rest } => {
            let later = cut(rest, limit);
            Cut { bodies: seq![body] + later.bodies, ..later }
        },
    }
}

/// The frames of a stream that arrives in chunks: after each chunk those that are complete
/// are taken off, until the framing is lost.
pub open spec fn cut_in_chunks(chunks: Seq<Seq<u8>>, limit: u32) -> Cut
    decreases chunks.len(),
{
    if chunks.len() == 0 {
        Cut { bodies: Seq::empty(), rest: Seq::empty(), lost: None }
    } else {
        let before = cut_in_chunks(chunks.drop_last(), limit);
        if before.lost is Some {
            before
        } else {
            let now = cut(before.rest + chunks.last(), limit);
            Cut { bodies: before.bodies + now.bodies, ..now }
        }
    }
}

/// Chunks put together.
pub open spec fn together(chunks: Seq<Seq<u8>>) -> Seq<u8>
    decreases chunks.len(),
{
    if chunks.len() == 0 {
        Seq::empty()
    } else {
        together(chunks.drop_last()) + chunks.last()
    }
}

/// The stream that carries bodies, one frame each.
pub open spec fn wire(bodies: Seq<Seq<u8>>) -> Seq<u8>
    decreases bodies.len(),
{
    if bodies.len() == 0 {
        Seq::empty()
    } else {
        wire(bodies.drop_last()) + framed(bodies.last())
    }
}

/// Whether every body is within the limit of a frame.
pub open spec fn within_limit(bodies: Seq<Seq<u8>>, limit: u32) -> bool {
    forall|i: int| 0 <= i < bodies.len() ==> (#[trigger] bodies[i]).len() <= limit
}

/// A frame that is complete at the start of a stream is the same when more follows.
proof fn lemma_first_frame_stays(first: Seq<u8>, second: Seq<u8>, limit: u32)
    ensures
        match first_frame(first, limit) {
            FrameView::Complete { body, rest } => first_frame(first + second, limit) == (
            FrameView::Complete { body, rest: rest + second }),
            FrameView::Oversized(n) => first_frame(first + second, limit) == FrameView::Oversized(
                n,
            ),
            FrameView::Incomplete => true,
        },
{
    match first_frame(first, limit) {
        FrameView::Complete { body, rest } => {
            let len = crate::bytes::be32_value(first);
            assert((first + second).subrange(4, 4 + len) =~= body);
            assert((first + second).skip(4 + len) =~= rest + second);
        },
        _ => {},
    }
}

proof fn lemma_cut_goes_on(first: Seq<u8>, second: Seq<u8>, limit: u32)
    ensures
        ({
            let one = cut(first, limit);
            let both = cut(first + second, limit);
            if one.lost is None {
                let two = cut(one.rest + second, limit);
                both == (Cut { bodies: one.bodies + two.bodies, ..two })
            } else {
                both.bodies == one.bodies && both.lost == one.lost
            }
        }),
    decreases first.len(),
{
    let one = cut(first, limit);
    let both = cut(first + second, limit);
    let two = cut(one.rest + second, limit);
    lemma_first_frame_stays(first, second, limit);
    match first_frame(first, limit) {
        FrameView::Complete { body, rest } => {
            lemma_cut_goes_on(rest, second, limit);
            let later = cut(rest, limit);
            if one.lost is None {
                assert(seq![body] + (later.bodies + two.bodies) =~= one.bodies + two.bodies);
            }
        },
        _ => {
            assert(one.bodies + two.bodies =~= two.bodies);
        },
    }
}

/// The bytes that were cut are those of the bodies, each in its frame, and the rest.
proof fn lemma_cut_keeps_bytes(stream: Seq<u8>, limit: u32)
    ensures
        stream == wire(cut(stream, limit).bodies) + cut(stream, limit).rest,
    decreases stream.len(),
{
    match first_frame(stream, limit) {
        FrameView::Complete { body, rest } => {
            lemma_cut_keeps_bytes(rest, limit);
            crate::bytes::be32_writes_back(stream.take(4));
            assert(crate::bytes::be32_value(stream.take(4)) == crate::bytes::be32_value(stream));
            assert(stream =~= framed(body) + rest);
            let later = cut(rest, limit).bodies;
            lemma_wire_front(body, later);
            assert(framed(body) + (wire(later) + cut(rest, limit).rest) =~= framed(body) + wire(
                later,
            ) + cut(rest, limit).rest);
        },
        _ => {
            assert(wire(Seq::empty()) + stream =~= stream);
        },
    }
}

proof fn lemma_wire_front(body: Seq<u8>, bodies: Seq<Seq<u8>>)
    ensures
        wire(seq![body] + bodies) == framed(body) + wire(bodies),
    decreases bodies.len(),
{
    let all = seq![body] + bodies;
    if bodies.len() == 0 {
        assert(all.drop_last() =~= Seq::<Seq<u8>>::empty());
        assert(wire(all.drop_last()) == Seq::<u8>::empty());
        assert(all.last() == body);
        assert(wire(all) =~= framed(body) + wire(bodies));
    } else {
        assert(all.drop_last() =~= seq![body] + bodies.drop_last());
        lemma_wire_front(body, bodies.drop_last());
        assert(all.last() == bodies.last());
        assert(wire(all) =~= framed(body) + wire(bodies));
    }
}

/// Bodies come off a stream as they were put on, each in its frame.
pub proof fn frames_are_taken_in_order(bodies: Seq<Seq<u8>>, limit: u32)
    requires
        within_limit(bodies, limit),
    ensures
        cut(wire(bodies), limit) == (Cut { bodies, rest: Seq::empty(), lost: None }),
    decreases bodies.len(),
{
    if bodies.len() == 0 {
        assert(cut(wire(bodies), limit).bodies =~= bodies);
    } else {
        let front = bodies.drop_last();
        let body = bodies.last();
        assert(within_limit(front, limit)) by {
            assert forall|i: int| 0 <= i < front.len() implies (#[trigger] front[i]).len()
                <= limit by {
                assert(front[i] == bodies[i]);
            }
        }
        assert(bodies[bodies.len() - 1].len() <= limit);
        frames_are_taken_in_order(front, limit);
        lemma_cut_goes_on(wire(front), framed(body), limit);
        framing_is_undone(body, Seq::empty(), limit);
        assert(Seq::<u8>::empty() + framed(body) =~= framed(body) + Seq::<u8>::empty());
        assert(cut(Seq::<u8>::empty(), limit).bodies =~= Seq::<Seq<u8>>::empty());
        assert(seq![body] + Seq::<Seq<u8>>::empty() =~= seq![body]);
        assert(front + seq![body] =~= bodies);
    }
}

/// It makes no difference in what chunks a stream arrives: the same bodies are taken off it,
/// in the same order, and the framing is lost over the same frame, if over any.
pub proof fn chunks_do_not_matter(chunks: Seq<Seq<u8>>, limit: u32)
    ensures
        cut_in_chunks(chunks, limit).bodies == cut(together(chunks), limit).bodies,
        cut_in_chunks(chunks, limit).lost == cut(together(chunks), limit).lost,
        cut_in_chunks(chunks, limit).lost is None ==> cut_in_chunks(chunks, limit).rest == cut(
            together(chunks),
            limit,
        ).rest,
    decreases chunks.len(),
{
    if chunks.len() > 0 {
        chunks_do_not_matter(chunks.drop_last(), limit);
        lemma_cut_goes_on(together(chunks.drop_last()), chunks.last(), limit);
    }
}

/// A stream of frames within the limit, in whatever chunks, gives exactly the bodies that it
/// carries, and nothing is left.
pub proof fn every_body_arrives(bodies: Seq<Seq<u8>>, chunks: Seq<Seq<u8>>, limit: u32)
    requires
        within_limit(bodies, limit),
        together(chunks) == wire(bodies),
    ensures
        cut_in_chunks(chunks, limit) == (Cut { bodies, rest: Seq::empty(), lost: None }),
{
    chunks_do_not_matter(chunks, limit);
    frames_are_taken_in_order(bodies, limit);
}

/// While such a stream arrives the framing is never lost, and what was given is always the
/// bodies that have arrived whole: what is left is the start of the next one's frame, and
/// less than all of it.
pub proof fn bodies_arrive_when_complete(
    bodies: Seq<Seq<u8>>,
    chunks: Seq<Seq<u8>>,
    later: Seq<u8>,
    limit: u32,
)
    requires
        within_limit(bodies, limit),
        together(chunks) + later == wire(bodies),
    ensures
        ({
            let got = cut_in_chunks(chunks, limit);
            let n = got.bodies.len() as int;
            &&& got.lost is None
            &&& n <= bodies.len()
            &&& got.bodies == bodies.take(n)
            &&& together(chunks) == wire(got.bodies) + got.rest
            &&& n < bodies.len() ==> got.rest.len() < framed(bodies[n]).len()
        }),
{
    let arrived = together(chunks);
    let got = cut_in_chunks(chunks, limit);
    chunks_do_not_matter(chunks, limit);
    frames_are_taken_in_order(bodies, limit);
    lemma_cut_goes_on(arrived, later, limit);
    lemma_cut_keeps_bytes(arrived, limit);
    let n = got.bodies.len() as int;
    let two = cut(got.rest + later, limit);
    assert(bodies == got.bodies + two.bodies);
    assert(bodies.take(n) =~= got.bodies);
    if n < bodies.len() {
        assert(bodies[n] == two.bodies[0]);
        lemma_rest_is_incomplete(arrived, limit);
        assert(first_frame(got.rest + later, limit) is Complete);
        if got.rest.len() >= 4 {
            assert(crate::bytes::be32_value(got.rest) == crate::bytes::be32_value(
                got.rest + later,
            ));
        }
    }
}

proof fn lemma_rest_is_incomplete(stream: Seq<u8>, limit: u32)
    requires
        cut(stream, limit).lost is None,
    ensures
        first_frame(cut(stream, limit).rest, limit) is Incomplete,
    decreases stream.len(),
{
    match first_frame(stream, limit) {
        FrameView::Complete { body, rest } => {
            lemma_rest_is_incomplete(rest, limit);
        },
        _ => {},
    }
}

/// A message that one end sends reaches the caller at the other end unchanged, unless it
/// belongs to the heartbeat.
pub proof fn sent_messages_are_forwarded(message: MessageView, sender_id: Seq<char>)
    requires
        message.encoded().len() <= MAX_BODY_SIZE,
        message.namespace != NS_HEARTBEAT@,
    ensures
        drained(framed(message.encoded()), sender_id) == (Drained {
            actions: seq![ActionView::Forward(message)],
            rest: Seq::empty(),
            lost: None,
        }),
{
    let body = message.encoded();
    decoding_undoes_encoding(message);
    framing_is_undone(body, Seq::empty(), MAX_BODY_SIZE as u32);
    assert(framed(body) + Seq::<u8>::empty() =~= framed(body));
    assert(drained(Seq::empty(), sender_id) == (Drained {
        actions: Seq::empty(),
        rest: Seq::empty(),
        lost: None,
    }));
    assert(drained(framed(body), sender_id).actions =~= seq![ActionView::Forward(message)]);
}

/// A PING is answered with a PONG to whoever asked, and not forwarded.
pub proof fn pings_are_answered(message: MessageView, sender_id: Seq<char>)
    requires
        message.encoded().len() <= MAX_BODY_SIZE,
        message.namespace == NS_HEARTBEAT@,
        payload_has_type(message.payload, "PING"@),
    ensures
        drained(framed(message.encoded()), sender_id) == (Drained {
            actions: seq![ActionView::Send(pong_view(sender_id, message.source))],
            rest: Seq::empty(),
            lost: None,
        }),
{
    let body = message.encoded();
    decoding_undoes_encoding(message);
    framing_is_undone(body, Seq::empty(), MAX_BODY_SIZE as u32);
    assert(framed(body) + Seq::<u8>::empty() =~= framed(body));
    assert(drained(Seq::empty(), sender_id) == (Drained {
        actions: Seq::empty(),
        rest: Seq::empty(),
        lost: None,
    }));
    assert(drained(framed(body), sender_id).actions =~= seq![
        ActionView::Send(pong_view(sender_id, message.source)),
    ]);
}

/// Whatever arrives, no heartbeat message is forwarded, and nothing is sent but PONGs.
pub proof fn heartbeats_stay_inside(stream: Seq<u8>, sender_id: Seq<char>)
    ensures
        forall|i: int|
            0 <= i < drained(stream, sender_id).actions.len() ==> match #[trigger] drained(
                stream,
                sender_id,
            ).actions[i] {
                ActionView::Forward(message) => message.namespace != NS_HEARTBEAT@,
                ActionView::Send(message) => message == pong_view(sender_id, message.destination),
                ActionView::Discard(_) => true,
            },
    decreases stream.len(),
{
    match first_frame(stream, MAX_BODY_SIZE as u32) {
        FrameView::Complete { body, rest } => {
            heartbeats_stay_inside(rest, sender_id);
            let all = drained(stream, sender_id).actions;
            let later = drained(rest, sender_id).actions;
            let shift = all.len() - later.len();
            assert forall|i: int| 0 <= i < all.len() implies match #[trigger] all[i] {
                ActionView::Forward(message) => message.namespace != NS_HEARTBEAT@,
                ActionView::Send(message) => message == pong_view(sender_id, message.destination),
                ActionView::Discard(_) => true,
            } by {
                if i >= shift {
                    assert(all[i] == later[i - shift]);
                }
            }
        },
        _ => {},
    }
}

/// It makes no difference in how many pieces a stream arrives: handling the first piece,
/// and then what it left together with the second, does what handling both at once does.
pub proof fn pieces_do_not_matter(first: Seq<u8>, second: Seq<u8>, sender_id: Seq<char>)
    requires
        drained(first, sender_id).lost is None,
    ensures
        ({
            let whole = drained(first + second, sender_id);
            let one = drained(first, sender_id);
            let two = drained(one.rest + second, sender_id);
            whole == (Drained { actions: one.actions + two.actions, ..two })
        }),
    decreases first.len(),
{
    let limit = MAX_BODY_SIZE as u32;
    let whole = drained(first + second, sender_id);
    let one = drained(first, sender_id);
    let two = drained(one.rest + second, sender_id);
    match first_frame(first, limit) {
        FrameView::Complete { body, rest } => {
            pieces_do_not_matter(rest, second, sender_id);
            let len = crate::bytes::be32_value(first);
            assert((first + second).subrange(4, 4 + len) =~= body);
            assert((first + second).skip(4 + len) =~= rest + second);
            assert(first_frame(first + second, limit) == (FrameView::Complete {
                body,
                rest: rest + second,
            }));
            assert(whole.actions =~= one.actions + two.actions);
        },
        _ => {
            assert(one.actions + two.actions =~= two.actions);
        },
    }
}

/// A stream that is lost stays lost, whatever comes after it.
pub proof fn lost_framing_stays_lost(first: Seq<u8>, second: Seq<u8>, sender_id: Seq<char>)
    requires
        drained(first, sender_id).lost is Some,
    ensures
        drained(first + second, sender_id).lost == drained(first, sender_id).lost,
        drained(first + second, sender_id).actions == drained(first, sender_id).actions,
    decreases first.len(),
{
    let limit = MAX_BODY_SIZE as u32;
    match first_frame(first, limit) {
        FrameView::Complete { body, rest } => {
            lost_framing_stays_lost(rest, second, sender_id);
            let len = crate::bytes::be32_value(first);
            assert((first + second).subrange(4, 4 + len) =~= body);
            assert((first + second).skip(4 + len) =~= rest + second);
        },
        _ => {},
    }
}

/// A peer cannot make the buffer grow: what is kept between reads is less than one frame.
pub proof fn pending_bytes_are_bounded(stream: Seq<u8>, sender_id: Seq<char>)
    requires
        drained(stream, sender_id).lost is None,
    ensures
        drained(stream, sender_id).rest.len() < 4 + MAX_BODY_SIZE,
        first_frame(drained(stream, sender_id).rest, MAX_BODY_SIZE as u32) is Incomplete,
    decreases stream.len(),
{
    match first_frame(stream, MAX_BODY_SIZE as u32) {
        FrameView::Complete { body, rest } => {
            pending_bytes_are_bounded(rest, sender_id);
        },
        _ => {},
    }
}

/// A session is over only when its queue was flushed or a write failed.
pub proof fn sessions_end_by_flushing(session: SessionLoop, event: LoopEvent)
    requires
        session.phase != Phase::Over,
        session.after(event).phase == Phase::Over,
        !event.is_failed_write(),
    ensures
        session.phase == Phase::Flush,
        event == LoopEvent::Tried(OutboundEvent::Empty) || event == LoopEvent::Tried(
            OutboundEvent::Disconnected,
        ),
{
}

/// After a failed write the session is over, whatever comes later: nothing more is read or
/// written.
pub proof fn failed_writes_are_final(
    session: SessionLoop,
    failure: LoopEvent,
    later: Seq<LoopEvent>,
)
    requires
        failure.is_failed_write(),
    ensures
        session.after(failure).after_all(later).phase == Phase::Over,
    decreases later.len(),
{
    if later.len() > 0 {
        failed_writes_are_final(session, failure, later.drop_last());
    }
}

/// An encoded message is its fields in the order of their tags: protocol version 0, the three
/// addresses, payload type 0 and the payload, each text as UTF-8 with its length before it.
pub proof fn messages_are_laid_out_field_by_field(msg: &CastMessage, bytes: Vec<u8>)
    requires
        call_ensures(encode_cast_message, (msg,), bytes),
    ensures
        ({
            let source = encode_utf8(msg@.source);
            let destination = encode_utf8(msg@.destination);
            let namespace = encode_utf8(msg@.namespace);
            let payload = encode_utf8(msg@.payload);
            bytes@ == seq![0x08u8, 0x00, 0x12] + crate::protobuf::varint(source.len()) + source
                + seq![0x1Au8] + crate::protobuf::varint(destination.len()) + destination
                + seq![0x22u8] + crate::protobuf::varint(namespace.len()) + namespace
                + seq![0x28u8, 0x00, 0x32] + crate::protobuf::varint(payload.len()) + payload
        }),
{
    let source = encode_utf8(msg@.source);
    let destination = encode_utf8(msg@.destination);
    let namespace = encode_utf8(msg@.namespace);
    let payload = encode_utf8(msg@.payload);
    assert(crate::protobuf::varint(0) =~= seq![0u8]);
    assert(crate::protobuf::varint(8) =~= seq![8u8]);
    assert(crate::protobuf::varint(0x12) =~= seq![0x12u8]);
    assert(crate::protobuf::varint(0x1A) =~= seq![0x1Au8]);
    assert(crate::protobuf::varint(0x22) =~= seq![0x22u8]);
    assert(crate::protobuf::varint(0x28) =~= seq![0x28u8]);
    assert(crate::protobuf::varint(0x32) =~= seq![0x32u8]);
    assert(bytes@ =~= seq![0x08u8, 0x00, 0x12] + crate::protobuf::varint(source.len()) + source
        + seq![0x1Au8] + crate::protobuf::varint(destination.len()) + destination + seq![0x22u8]
        + crate::protobuf::varint(namespace.len()) + namespace + seq![0x28u8, 0x00, 0x32]
        + crate::protobuf::varint(payload.len()) + payload);
}

/// A field that is alone: text of a tag sets the field of the message that has the tag, and no
/// other; a varint sets none; a length beyond the data, and any other kind of field, is an error.
pub proof fn fields_set_what_their_tag_names(
    data: &[u8],
    result: Result<CastMessage, DecodeError>,
    tag: u32,
    wire: u8,
    value: u64,
    body: Seq<u8>,
)
    requires
        call_ensures(decode_cast_message, (data,), result),
        wire < 8,
        data@ == crate::protobuf::varint((tag * 8 + wire) as nat) + crate::protobuf::varint(
            value as nat,
        ) + body,
    ensures
        wire == 2 && value == body.len() ==> {
            &&& result matches Ok(msg)
            &&& msg@.source == (if tag == 2 { lossy_text(body) } else { Seq::empty() })
            &&& msg@.destination == (if tag == 3 { lossy_text(body) } else { Seq::empty() })
            &&& msg@.namespace == (if tag == 4 { lossy_text(body) } else { Seq::empty() })
            &&& msg@.payload == (if tag == 6 { lossy_text(body) } else { Seq::empty() })
        },
        wire == 2 && value > body.len() ==> result == Err::<CastMessage, DecodeError>(
            DecodeError::FieldOverrun,
        ),
        wire == 0 && body.len() == 0 ==> {
            &&& result matches Ok(msg)
            &&& msg@ == MessageView::blank()
        },
        wire != 0 && wire != 2 ==> result == Err::<CastMessage, DecodeError>(
            DecodeError::UnsupportedWireType { wire, tag },
        ),
{
    let key = (tag * 8 + wire) as u64;
    let head = crate::protobuf::varint(key as nat);
    let size = crate::protobuf::varint(value as nat);
    let text = (head.len() + size.len()) as int;
    assert(data@.subrange(0, head.len() as int) =~= head);
    crate::protobuf::varint_reads_back(data@, 0, key);
    assert(data@.subrange(head.len() as int, text) =~= size);
    crate::protobuf::varint_reads_back(data@, head.len() as int, value);
    assert(key / 8 == tag && key % 8 == wire);
    if wire == 2 && value == body.len() {
        assert(data@.subrange(text, text + value) =~= body);
        assert(decoded_from(data@, text + value, MessageView::blank().with_field(
            tag,
            lossy_text(body),
        )) == Ok::<MessageView, DecodeError>(
            MessageView::blank().with_field(tag, lossy_text(body)),
        ));
    }
    if wire == 0 && body.len() == 0 {
        assert(decoded_from(data@, text, MessageView::blank()) == Ok::<MessageView, DecodeError>(
            MessageView::blank(),
        ));
    }
}

/// The message of which no field was given is empty throughout, and is what no data decode to;
/// data that begin with what is no varint do not decode.
pub proof fn no_data_are_an_empty_message(data: &[u8], result: Result<CastMessage, DecodeError>)
    requires
        call_ensures(decode_cast_message, (data,), result),
    ensures
        data@.len() == 0 ==> {
            &&& result matches Ok(msg)
            &&& msg@.source.len() == 0
            &&& msg@.destination.len() == 0
            &&& msg@.namespace.len() == 0
            &&& msg@.payload.len() == 0
        },
        data@.len() > 0 && crate::protobuf::varint_at(data@, 0) == Err::<(u64, int), VarintError>(
            VarintError::Overrun,
        ) ==> result == Err::<CastMessage, DecodeError>(DecodeError::VarintOverrun),
        data@.len() > 0 && crate::protobuf::varint_at(data@, 0) == Err::<(u64, int), VarintError>(
            VarintError::TooLong,
        ) ==> result == Err::<CastMessage, DecodeError>(DecodeError::VarintTooLong),
{
}

/// A frame is taken exactly when its four bytes of length, most significant first, and so many
/// bytes of body have arrived: the body is given and what follows it stays. A length over 65536
/// is an error at once. Until then nothing is taken.
pub proof fn frames_are_taken_by_their_length(
    acc: &mut Vec<u8>,
    result: Result<Option<Vec<u8>>, FrameError>,
)
    requires
        call_ensures(take_frame, (acc,), result),
    ensures
        ({
            let stream = old(acc)@;
            let len = crate::bytes::big_endian(stream.take(4)) as int;
            &&& stream.len() < 4 ==> (result matches Ok(None))
            &&& stream.len() >= 4 && len > 65536 ==> {
                result matches Err(error) && error.declared == len
            }
            &&& stream.len() >= 4 && len <= 65536 && stream.len() < 4 + len ==> (result matches Ok(
                None,
            ))
            &&& stream.len() >= 4 && len <= 65536 && stream.len() >= 4 + len ==> {
                result matches Ok(Some(body)) && body@ == stream.subrange(4, 4 + len) && final(acc)@ == stream.skip(4 + len)
            }
            &&& !(stream.len() >= 4 && len <= 65536 && stream.len() >= 4 + len) ==> final(acc)@
                == stream
        }),
{
    if old(acc)@.len() >= 4 {
        crate::bytes::numbers_are_big_endian(0, 0, old(acc)@);
    }
}

/// A message goes over the wire as its length in four bytes, most significant first, and then
/// itself.
pub proof fn messages_are_framed_by_their_length(
    msg: &CastMessage,
    bytes: Vec<u8>,
    body: Vec<u8>,
)
    requires
        call_ensures(frame_message, (msg,), bytes),
        call_ensures(encode_cast_message, (msg,), body),
        body@.len() <= u32::MAX,
    ensures
        bytes@.len() == 4 + body@.len(),
        crate::bytes::big_endian(bytes@.take(4)) == body@.len(),
        bytes@.skip(4) == body@,
{
    let len = body@.len() as u32;
    crate::bytes::numbers_are_big_endian(0, len, crate::bytes::be32(len));
    assert(bytes@.take(4) =~= crate::bytes::be32(len));
    assert(bytes@.skip(4) =~= body@);
}

/// A payload has a type exactly if it is a JSON object whose member `type` is that text, whatever
/// else the object holds and however it is written.
pub proof fn types_are_members_of_objects(payload: &str, expected: &str, is: bool)
    requires
        call_ensures(payload_type_is, (payload, expected), is),
    ensures
        ({
            let parsed = json::parsed(payload@);
            is <==> parsed is Some && parsed->0 is Object && parsed->0->Object_0.dom().contains(
                "type"@,
            ) && parsed->0->Object_0["type"@] == Json::Text(expected@)
        }),
{
}

/// Heartbeats are told apart by their namespace alone. A PING is answered with a PONG to whoever
/// sent it, any other heartbeat with nothing, and all other messages are handed on unchanged.
pub proof fn heartbeats_are_answered_and_the_rest_handed_on(
    msg: CastMessage,
    is_ping: bool,
    sender_id: &str,
    action: Option<Action>,
)
    requires
        call_ensures(react, (msg, is_ping, sender_id), action),
    ensures
        ({
            let is_heartbeat = msg@.namespace == "urn:x-cast:com.google.cast.tp.heartbeat"@;
            &&& is_heartbeat && is_ping ==> {
                &&& action matches Some(Action::Send(pong))
                &&& pong@.source == sender_id@
                &&& pong@.destination == msg@.source
                &&& pong@.namespace == msg@.namespace
                &&& pong@.payload == "{\"type\":\"PONG\"}"@
            }
            &&& is_heartbeat && !is_ping ==> action is None
            &&& !is_heartbeat ==> {
                &&& action matches Some(Action::Forward(forwarded))
                &&& forwarded@ == msg@
            }
        }),
{
}

/// What is done about a frame is what is done about the message that it decodes to, which is a
/// PING if its payload is an object of that type; a frame that does not decode is discarded.
pub proof fn frames_are_handled_by_their_message(
    body: &[u8],
    sender_id: &str,
    action: Option<Action>,
    decoded: Result<CastMessage, DecodeError>,
    payload: &str,
    is_ping: bool,
    reaction: Option<Action>,
)
    requires
        call_ensures(react_to_frame, (body, sender_id), action),
        call_ensures(decode_cast_message, (body,), decoded),
        decoded is Ok ==> payload@ == decoded->Ok_0@.payload && call_ensures(
            payload_type_is,
            (payload, "PING"),
            is_ping,
        ) && call_ensures(react, (decoded->Ok_0, is_ping, sender_id), reaction),
    ensures
        decoded matches Err(e) ==> action is Some && action->0@ == ActionView::Discard(e),
        decoded is Ok ==> action is Some == reaction is Some,
        decoded is Ok && action is Some ==> action->0@ == reaction->0@,
{
}

/// What is done about frames one after the other.
pub open spec fn reactions(bodies: Seq<Seq<u8>>, sender_id: Seq<char>) -> Seq<ActionView>
    decreases bodies.len(),
{
    if bodies.len() == 0 {
        Seq::empty()
    } else {
        match frame_reaction(bodies[0], sender_id) {
            Some(action) => seq![action] + reactions(bodies.skip(1), sender_id),
            None => reactions(bodies.skip(1), sender_id),
        }
    }
}

proof fn lemma_drained_is_cut(stream: Seq<u8>, sender_id: Seq<char>)
    ensures
        ({
            let taken = cut(stream, MAX_BODY_SIZE as u32);
            let after = drained(stream, sender_id);
            &&& after.actions == reactions(taken.bodies, sender_id)
            &&& after.rest == taken.rest
            &&& after.lost == taken.lost
        }),
    decreases stream.len(),
{
    match first_frame(stream, MAX_BODY_SIZE as u32) {
        FrameView::Complete { body, rest } => {
            lemma_drained_is_cut(rest, sender_id);
            let taken = cut(stream, MAX_BODY_SIZE as u32);
            assert(taken.bodies[0] == body);
            assert(taken.bodies.skip(1) =~= cut(rest, MAX_BODY_SIZE as u32).bodies);
            assert(drained(stream, sender_id).actions =~= reactions(taken.bodies, sender_id));
        },
        _ => {},
    }
}

/// What a read leads to: bytes that arrive are put behind those that are there, the frames that
/// are then complete are handled in their order, and the time is noted; a frame over the limit
/// ends the session. An empty read, and the end of the stream, mean that the peer closed it; any
/// other error ends it too. Nothing to read changes nothing.
pub proof fn reads_lead_to_what_they_bring(
    dispatcher: &mut Dispatcher,
    event: ReadEvent,
    now: u64,
    step: (Vec<Action>, Option<SessionEnd>),
)
    requires
        call_ensures(Dispatcher::on_read, (dispatcher, event, now), step),
    ensures
        event is Data && event->Data_0@.len() > 0 ==> {
            let taken = cut(old(dispatcher)@.pending + event->Data_0@, 65536);
            &&& action_views(step.0@) == reactions(taken.bodies, old(dispatcher)@.sender_id)
            &&& final(dispatcher)@.pending == taken.rest
            &&& final(dispatcher)@.last_rx == now
            &&& taken.lost is None <==> step.1 is None
            &&& taken.lost matches Some(n) ==> step.1 == Some(
                SessionEnd::FramingLost(FrameError { declared: n }),
            )
        },
        event is Data && event->Data_0@.len() == 0 ==> step.1 == Some(
            SessionEnd::PeerClosed,
        ) && step.0@.len() == 0 && final(dispatcher)@ == old(dispatcher)@,
        event is UnexpectedEof ==> step.1 == Some(SessionEnd::PeerClosed) && step.0@.len() == 0
            && final(dispatcher)@ == old(dispatcher)@,
        event is OtherError ==> step.1 == Some(SessionEnd::ReadFailed) && step.0@.len() == 0
            && final(dispatcher)@ == old(dispatcher)@,
        (event is WouldBlock || event is TimedOut) && first_frame(
            old(dispatcher)@.pending,
            65536,
        ) is Incomplete ==> step.0@.len() == 0 && step.1 is None && final(dispatcher)@.pending
            == old(dispatcher)@.pending,
        event is WouldBlock || event is TimedOut ==> final(dispatcher)@.last_rx == old(dispatcher)@.last_rx,
        final(dispatcher)@.sender_id == old(dispatcher)@.sender_id,
        final(dispatcher)@.last_ping == old(dispatcher)@.last_ping,
{
    if event is Data {
        lemma_drained_is_cut(
            old(dispatcher)@.pending + event->Data_0@,
            old(dispatcher)@.sender_id,
        );
    } else {
        assert(old(dispatcher)@.pending + Seq::<u8>::empty() =~= old(dispatcher)@.pending);
        assert(action_views(step.0@).len() == step.0@.len());
    }
}

/// A PING is due five seconds after the last one, to the device itself, and not before; noting
/// one puts the next off by five seconds. A new connection counts as just pinged and heard.
pub proof fn pings_are_due_every_five_seconds(
    sender_id: String,
    opened: u64,
    fresh: Dispatcher,
    dispatcher: &mut Dispatcher,
    pinged_at: u64,
    now: u64,
    due: Option<CastMessage>,
)
    requires
        call_ensures(Dispatcher::new, (sender_id, opened), fresh),
        call_ensures(Dispatcher::pinged, (dispatcher, pinged_at), ()),
        call_ensures(Dispatcher::heartbeat, (&fresh, now), due),
    ensures
        fresh@.sender_id == sender_id@,
        fresh@.pending.len() == 0,
        fresh@.last_rx == opened,
        due is Some <==> now >= opened + 5_000,
        due matches Some(ping) ==> {
            &&& ping@.source == sender_id@
            &&& ping@.destination == "receiver-0"@
            &&& ping@.namespace == "urn:x-cast:com.google.cast.tp.heartbeat"@
            &&& ping@.payload == "{\"type\":\"PING\"}"@
        },
        final(dispatcher)@.last_ping == pinged_at,
        final(dispatcher)@.last_rx == old(dispatcher)@.last_rx,
        final(dispatcher)@.pending == old(dispatcher)@.pending,
        final(dispatcher)@.sender_id == old(dispatcher)@.sender_id,
{
}

/// A PING is due exactly when five seconds have gone by since the last one, and the peer counts
/// as gone exactly when nothing was received for ten.
pub proof fn silence_and_pings_go_by_the_clock(
    dispatcher: &Dispatcher,
    now: u64,
    due: Option<CastMessage>,
    silent: bool,
)
    requires
        call_ensures(Dispatcher::heartbeat, (dispatcher, now), due),
        call_ensures(Dispatcher::is_silent, (dispatcher, now), silent),
    ensures
        due is Some <==> now >= dispatcher@.last_ping + 5_000,
        due matches Some(ping) ==> ping@.source == dispatcher@.sender_id,
        silent <==> now >= dispatcher@.last_rx + 10_000,
{
}

/// How the loop of a session goes on: from reading to sending what is queued, until nothing is,
/// to the heartbeat, and back. What ends the session leads to flushing the queue, until nothing
/// is left, and then it is over. A failed write ends it at once, and what is over stays so.
pub proof fn loops_read_send_and_beat(session: &mut SessionLoop, event: LoopEvent)
    requires
        call_ensures(SessionLoop::advance, (session, event), ()),
    ensures
        ({
            let before = old(session).phase;
            let after = final(session).phase;
            let failed = event == LoopEvent::HeartbeatFailed || event == LoopEvent::Tried(
                OutboundEvent::SendFailed,
            );
            &&& before == Phase::Over || failed ==> after == Phase::Over
            &&& before == Phase::Read && event is Handled ==> after == (if event->Handled_0 is None {
                Phase::Send
            } else {
                Phase::Flush
            })
            &&& before == Phase::Send && event == LoopEvent::Tried(OutboundEvent::Sent) ==> after
                == Phase::Send
            &&& before == Phase::Send && (event == LoopEvent::Tried(OutboundEvent::Empty) || event
                == LoopEvent::Tried(OutboundEvent::Disconnected)) ==> after == Phase::Beat
            &&& before == Phase::Beat && event is Beaten ==> after == (if event->silent
                || event->stop || old(session).ending {
                Phase::Flush
            } else {
                Phase::Read
            })
            &&& before == Phase::Flush && event == LoopEvent::Tried(OutboundEvent::Sent) ==> after
                == Phase::Flush
            &&& before == Phase::Flush && (event == LoopEvent::Tried(OutboundEvent::Empty) || event
                == LoopEvent::Tried(OutboundEvent::Disconnected)) ==> after == Phase::Over
            &&& final(session).ending == (old(session).ending || before == Phase::Send && event
                == LoopEvent::Tried(OutboundEvent::Disconnected))
        }),
{
}

/// A session begins with reading, or with flushing the queue if its end was asked for already.
pub proof fn loops_begin_with_reading(stop: bool, session: SessionLoop)
    requires
        call_ensures(SessionLoop::new, (stop,), session),
    ensures
        session.phase == (if stop {
            Phase::Flush
        } else {
            Phase::Read
        }),
        !session.ending,
{
}

/// A sender id is `sender-` and the number in decimal; a drawn one has a number below a million.
pub proof fn sender_ids_hold_their_number(number: u32, id: String, drawn: String)
    requires
        call_ensures(sender_id, (number,), id),
        call_ensures(draw_sender_id, (), drawn),
    ensures
        id@.take(7) == "sender-"@,
        id@.skip(7) == crate::text::decimal(number as nat),
        exists|n: u32| n < 1_000_000 && drawn@ == "sender-"@ + #[trigger] crate::text::decimal(
            n as nat,
        ),
{
    reveal_strlit("sender-");
    assert(id@.take(7) =~= "sender-"@);
    assert(id@.skip(7) =~= crate::text::decimal(number as nat));
    let n = choose|n: u32| n < SENDER_IDS && drawn@ == #[trigger] sender_id_text(n);
    assert(drawn@ == "sender-"@ + crate::text::decimal(n as nat));
}

/// A message with a JSON payload has the addresses that it is given, and as its payload what the
/// document is written as.
pub proof fn json_messages_hold_their_document(
    source: &str,
    destination: &str,
    namespace: &str,
    payload: &serde_json::Value,
    msg: CastMessage,
)
    requires
        call_ensures(json_message, (source, destination, namespace, payload), msg),
        json::document(*payload).nests_within(json::max_levels()),
    ensures
        msg@.source == source@,
        msg@.destination == destination@,
        msg@.namespace == namespace@,
        msg@.payload == json::written(json::document(*payload)),
{
}

proof fn lemma_connect_keys()
    ensures
        "type"@.len() == 4,
        "userAgent"@.len() == 9,
        "connType"@.len() == 8,
        "origin"@.len() == 6,
        "senderInfo"@.len() == 10,
        "sdkType"@.len() == 7,
        "version"@.len() == 7,
        "browserVersion"@.len() == 14,
        "platform"@.len() == 8,
        "connectionType"@.len() == 14,
        "systemVersion"@.len() == 13,
        "reasonCode"@.len() == 10,
        "sdkType"@ != "version"@,
        "browserVersion"@ != "connectionType"@,
{
    reveal_strlit("type");
    reveal_strlit("userAgent");
    reveal_strlit("connType");
    reveal_strlit("origin");
    reveal_strlit("senderInfo");
    reveal_strlit("sdkType");
    reveal_strlit("version");
    reveal_strlit("browserVersion");
    reveal_strlit("platform");
    reveal_strlit("connectionType");
    reveal_strlit("systemVersion");
    reveal_strlit("reasonCode");
    assert("sdkType"@[0] != "version"@[0]);
    assert("browserVersion"@[0] != "connectionType"@[0]);
}

/// A virtual connection is opened by a CONNECT from this sender to whom it is for, which says what
/// the sender is.
pub proof fn connections_are_opened_by_connect(
    sender_id: &str,
    transport_id: &str,
    version: &str,
    msg: CastMessage,
)
    requires
        call_ensures(connect_transport, (sender_id, transport_id, version), msg),
    ensures
        msg@.source == sender_id@,
        msg@.destination == transport_id@,
        msg@.namespace == "urn:x-cast:com.google.cast.tp.connection"@,
        ({
            let sent = json::parsed(msg@.payload);
            let info = sent->0.get("senderInfo"@);
            &&& sent is Some
            &&& sent->0.text_at("type"@) == Some("CONNECT"@)
            &&& sent->0.text_at("userAgent"@) == Some(
                "chromecast-sink/"@ + version@ + " (Linux; Rust)"@,
            )
            &&& sent->0.unsigned_at("connType"@) == Some(0u64)
            &&& sent->0.get("origin"@) == Some(Json::Object(Map::empty()))
            &&& info is Some
            &&& info->0.unsigned_at("sdkType"@) == Some(2u64)
            &&& info->0.text_at("version"@) == Some(version@)
            &&& info->0.text_at("browserVersion"@) == Some(version@)
            &&& info->0.unsigned_at("platform"@) == Some(6u64)
            &&& info->0.unsigned_at("connectionType"@) == Some(1u64)
            &&& info->0.text_at("systemVersion"@) == Some("Linux"@)
        }),
{
    lemma_connect_keys();
}

/// A virtual connection is closed by a CLOSE from this sender to whom it is for, with the reason
/// that this end closed it.
pub proof fn connections_are_closed_by_close(sender_id: &str, transport_id: &str, msg: CastMessage)
    requires
        call_ensures(close_transport, (sender_id, transport_id), msg),
    ensures
        msg@.source == sender_id@,
        msg@.destination == transport_id@,
        msg@.namespace == "urn:x-cast:com.google.cast.tp.connection"@,
        ({
            let sent = json::parsed(msg@.payload);
            &&& sent is Some
            &&& sent->0.text_at("type"@) == Some("CLOSE"@)
            &&& sent->0.unsigned_at("reasonCode"@) == Some(5u64)
        }),
{
    lemma_connect_keys();
}

/// An error says the number that is wrong: the length that a frame declares, or the kind and the
/// tag of a field.
pub proof fn errors_name_their_numbers(
    frame: &FrameError,
    frame_text: String,
    field: &DecodeError,
    field_text: String,
)
    requires
        call_ensures(FrameError::message, (frame,), frame_text),
        call_ensures(DecodeError::message, (field,), field_text),
    ensures
        frame_text@ == "frame declares "@ + crate::text::decimal(frame.declared as nat)
            + " bytes, over the "@ + crate::text::decimal(65536) + "-byte maximum"@,
        *field matches DecodeError::UnsupportedWireType { wire, tag } ==> field_text@
            == "unsupported wire type "@ + crate::text::decimal(wire as nat) + " at tag "@
            + crate::text::decimal(tag as nat),
{
}

} // verus!
