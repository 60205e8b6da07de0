//! The Cast v2 channel in its plain form: a fixed sender id, frames of any size, and
//! nothing sent after the end of a session.

pub use crate::cast_channel::decode_cast_message;
pub use crate::cast_channel::encode_cast_message;
pub use crate::cast_channel::CastMessage;
pub use crate::cast_channel::NS_CONNECTION;
pub use crate::cast_channel::NS_HEARTBEAT;
pub use crate::cast_channel::NS_RECEIVER;
pub use crate::cast_channel::NS_WEBRTC;

use vstd::prelude::*;

use crate::cast_channel::json_message;
use crate::cast_channel::payload_type_is;
use crate::cast_channel::ping;
use crate::cast_channel::react;
use crate::cast_channel::split_frame;
use crate::cast_channel::Action;
use crate::cast_channel::ActionView;
use crate::cast_channel::FrameView;
use crate::cast_channel::LoopEvent;
use crate::cast_channel::MessageView;
use crate::cast_channel::Phase;
use crate::cast_channel::ReadEvent;
use crate::cast_channel::SessionEnd;
use crate::cast_channel::SessionLoop;
use crate::cast_channel::HEARTBEAT_INTERVAL_MS;
use crate::json;
use crate::json::Json;

verus! {

/// The virtual endpoint of the device itself.
pub const PLATFORM: &'static str = "receiver-0";

/// The virtual endpoint of every sender of this form.
pub const SENDER_LOCAL: &'static str = "sender-0";

/// The request for a virtual connection.
pub open spec fn connect_document() -> Json {
    Json::Object(map!["type"@ => Json::Text("CONNECT"@)])
}

/// Opens a virtual connection, which has to happen before any message to an app.
pub fn connect_transport(destination: &str) -> (msg: CastMessage)
    ensures
        msg@ == (MessageView {
            source: SENDER_LOCAL@,
            destination: destination@,
            namespace: NS_CONNECTION@,
            payload: json::written(connect_document()),
        }),
        json::parsed(msg@.payload) == Some(connect_document()),
{
    let mut payload = json::new_object();
    json::set(&mut payload, "type", json::text("CONNECT"));
    proof {
        reveal_with_fuel(Json::is_plain, 2);
        assert(json::document(payload).is_plain(1));
        json::document(payload).plain_allows_more(1, json::max_levels());
    }
    json_message(SENDER_LOCAL, destination, NS_CONNECTION, &payload)
}

/// Whether a payload is a PING.
pub fn is_ping(payload: &str) -> (is: bool)
    ensures
        is == crate::cast_channel::payload_has_type(payload@, "PING"@),
{
    payload_type_is(payload, "PING")
}

/// What is done about the body of a frame.
pub open spec fn frame_reaction(body: Seq<u8>) -> Option<ActionView> {
    match crate::cast_channel::decoded(body) {
        Ok(message) => crate::cast_channel::reaction(
            message,
            crate::cast_channel::payload_has_type(message.payload, "PING"@),
            SENDER_LOCAL@,
        ),
        Err(e) => Some(ActionView::Discard(e)),
    }
}

/// What to do about the body of a frame.
pub fn react_to_frame(body: &[u8]) -> (action: Option<Action>)
    ensures
        match frame_reaction(body@) {
            Some(view) => action is Some && action->0@ == view,
            None => action is None,
        },
{
    match decode_cast_message(body) {
        Ok(msg) => {
            let pinged: bool = is_ping(msg.payload.as_str());
            react(msg, pinged, SENDER_LOCAL)
        },
        Err(e) => Some(Action::Discard(e)),
    }
}

/// What the complete frames at the start of a stream lead to, and the bytes after them.
pub open spec fn drained(stream: Seq<u8>) -> (Seq<ActionView>, Seq<u8>)
    decreases stream.len(),
{
    match crate::cast_channel::first_frame(stream, u32::MAX) {
        FrameView::Complete { body, rest } => {
            let later = drained(rest);
            match frame_reaction(body) {
                Some(action) => (seq![action] + later.0, later.1),
                None => later,
            }
        },
        _ => (Seq::empty(), stream),
    }
}

/// How often a peer is asked whether it is alive, with the bytes that have arrived of frames
/// that are not complete. Times are milliseconds of one clock.
pub struct Dispatcher {
    pub acc: Vec<u8>,
    pub last_ping: u64,
}

/// How a read ends the session, if it does.
pub open spec fn read_ends(event: ReadEvent) -> Option<SessionEnd> {
    match event {
        ReadEvent::Data(bytes) => if bytes@.len() == 0 {
            Some(SessionEnd::PeerClosed)
        } else {
            None
        },
        ReadEvent::WouldBlock => None,
        ReadEvent::TimedOut => None,
        ReadEvent::UnexpectedEof => Some(SessionEnd::ReadFailed),
        ReadEvent::OtherError => Some(SessionEnd::ReadFailed),
    }
}

impl Dispatcher {
    /// A dispatcher for a connection that was opened at `now`.
    pub fn new(now: u64) -> (dispatcher: Dispatcher)
        ensures
            dispatcher.acc@ == Seq::<u8>::empty(),
            dispatcher.last_ping == now,
    {
        Dispatcher { acc: Vec::new(), last_ping: now }
    }

    /// Takes in what a read came to: what to do about it, and whether the session is over.
    pub fn on_read(&mut self, event: ReadEvent) -> (step: (Vec<Action>, Option<SessionEnd>))
        ensures
            step.1 == read_ends(event),
            match read_ends(event) {
                Some(_) => step.0@.len() == 0 && final(self).acc@ == old(self).acc@,
                None => {
                    let after = drained(
                        old(self).acc@ + crate::cast_channel::DispatcherView::read_bytes(event),
                    );
                    &&& crate::cast_channel::action_views(step.0@) == after.0
                    &&& final(self).acc@ == after.1
                },
            },
            final(self).last_ping == old(self).last_ping,
    {
        match event {
            ReadEvent::Data(bytes) => {
                if bytes.len() == 0 {
                    return (Vec::new(), Some(SessionEnd::PeerClosed));
                }
                self.acc.extend_from_slice(bytes.as_slice());
                assert(self.acc@ =~= old(self).acc@ + bytes@);
            },
            ReadEvent::WouldBlock | ReadEvent::TimedOut => {
                assert(self.acc@ =~= old(self).acc@ + Seq::<u8>::empty());
            },
            ReadEvent::UnexpectedEof | ReadEvent::OtherError => {
                return (Vec::new(), Some(SessionEnd::ReadFailed));
            },
        }
        let ghost stream = self.acc@;
        let mut actions: Vec<Action> = Vec::new();
        assert(crate::cast_channel::action_views(actions@) + drained(stream).0 =~= drained(
            stream,
        ).0);
        loop
            invariant
                self.last_ping == old(self).last_ping,
                read_ends(event) is None,
                stream == old(self).acc@ + crate::cast_channel::DispatcherView::read_bytes(event),
                crate::cast_channel::action_views(actions@) + drained(self.acc@).0 == drained(
                    stream,
                ).0,
                drained(self.acc@).1 == drained(stream).1,
            decreases self.acc@.len(),
        {
            let ghost before = crate::cast_channel::action_views(actions@);
            let ghost later = drained(self.acc@);
            match split_frame(&mut self.acc, u32::MAX) {
                Ok(Some(body)) => {
                    match react_to_frame(body.as_slice()) {
                        Some(action) => {
                            let ghost view = action@;
                            actions.push(action);
                            assert(crate::cast_channel::action_views(actions@) =~= before.push(
                                view,
                            ));
                            assert(before.push(view) + drained(self.acc@).0 =~= before + later.0);
                        },
                        None => {},
                    }
                },
                _ => {
                    assert(before + later.0 =~= before);
                    return (actions, None);
                },
            }
        }
    }

    /// The PING that is due at `now`, if one is.
    pub fn heartbeat(&self, now: u64) -> (msg: Option<CastMessage>)
        ensures
            msg is Some == (now - self.last_ping >= HEARTBEAT_INTERVAL_MS),
            msg is Some ==> msg->0@ == crate::cast_channel::ping_view(SENDER_LOCAL@),
    {
        if now >= self.last_ping && now - self.last_ping >= HEARTBEAT_INTERVAL_MS {
            Some(ping(SENDER_LOCAL))
        } else {
            None
        }
    }

    /// Notes that a PING was sent at `now`.
    pub fn pinged(&mut self, now: u64)
        ensures
            *final(self) == (Dispatcher { last_ping: now, ..*old(self) }),
    {
        self.last_ping = now;
    }
}

/// The loop of a session with nothing to flush: where messages would be flushed it is over.
pub open spec fn unflushed(session: SessionLoop) -> SessionLoop {
    if session.phase == Phase::Flush {
        SessionLoop { phase: Phase::Over, ..session }
    } else {
        session
    }
}

/// The loop of a new session, which is over at once if its end was asked for already.
pub fn start_loop(stop: bool) -> (session: SessionLoop)
    ensures
        session == (SessionLoop {
            phase: if stop {
                Phase::Over
            } else {
                Phase::Read
            },
            ending: false,
        }),
{
    if stop {
        SessionLoop { phase: Phase::Over, ending: false }
    } else {
        SessionLoop { phase: Phase::Read, ending: false }
    }
}

/// Notes what was done in the phase of the loop. What is still queued at the end of the
/// session is not sent.
pub fn advance_loop(session: &mut SessionLoop, event: LoopEvent)
    ensures
        *final(session) == unflushed(old(session).after(event)),
{
    session.advance(event);
    match session.phase {
        Phase::Flush => {
            session.phase = Phase::Over;
        },
        _ => {},
    }
}

/// It makes no difference in how many pieces a stream arrives.
pub proof fn pieces_do_not_matter(first: Seq<u8>, second: Seq<u8>)
    ensures
        drained(first + second) == (
            drained(first).0 + drained(drained(first).1 + second).0,
            drained(drained(first).1 + second).1,
        ),
    decreases first.len(),
{
    let one = drained(first);
    let two = drained(one.1 + second);
    match crate::cast_channel::first_frame(first, u32::MAX) {
        FrameView::Complete { body, rest } => {
            pieces_do_not_matter(rest, second);
            let len = crate::bytes::be32_value(first);
            assert((first + second).subrange(4, 4 + len) =~= body);
            assert((first + second).skip(4 + len) =~= rest + second);
            assert(drained(first + second).0 =~= one.0 + two.0);
        },
        _ => {
            assert(one.0 + two.0 =~= two.0);
        },
    }
}

/// A message that one end sends reaches the caller at the other end unchanged, unless it
/// belongs to the heartbeat.
pub proof fn sent_messages_are_forwarded(message: MessageView)
    requires
        message.encoded().len() <= u32::MAX,
        message.namespace != NS_HEARTBEAT@,
    ensures
        drained(crate::cast_channel::framed(message.encoded())) == (
            seq![ActionView::Forward(message)],
            Seq::<u8>::empty(),
        ),
{
    let body = message.encoded();
    crate::cast_channel::decoding_undoes_encoding(message);
    crate::cast_channel::framing_is_undone(body, Seq::empty(), u32::MAX);
    let stream = crate::cast_channel::framed(body);
    assert(stream + Seq::<u8>::empty() =~= stream);
    assert(drained(Seq::empty()) == (Seq::<ActionView>::empty(), Seq::<u8>::empty()));
    assert(drained(stream).0 =~= seq![ActionView::Forward(message)]);
}

/// A PING is answered with a PONG to whoever asked, and not forwarded.
pub proof fn pings_are_answered(message: MessageView)
    requires
        message.encoded().len() <= u32::MAX,
        message.namespace == NS_HEARTBEAT@,
        crate::cast_channel::payload_has_type(message.payload, "PING"@),
    ensures
        drained(crate::cast_channel::framed(message.encoded())) == (
            seq![
                ActionView::Send(crate::cast_channel::pong_view(SENDER_LOCAL@, message.source)),
            ],
            Seq::<u8>::empty(),
        ),
{
    let body = message.encoded();
    let pong = ActionView::Send(crate::cast_channel::pong_view(SENDER_LOCAL@, message.source));
    crate::cast_channel::decoding_undoes_encoding(message);
    crate::cast_channel::framing_is_undone(body, Seq::empty(), u32::MAX);
    let stream = crate::cast_channel::framed(body);
    assert(stream + Seq::<u8>::empty() =~= stream);
    assert(drained(Seq::empty()) == (Seq::<ActionView>::empty(), Seq::<u8>::empty()));
    assert(drained(stream).0 =~= seq![pong]);
}

/// A virtual connection is opened by a CONNECT from the fixed sender to whom it is for.
pub proof fn connections_are_opened_by_connect(destination: &str, msg: CastMessage)
    requires
        call_ensures(connect_transport, (destination,), msg),
    ensures
        msg@.source == "sender-0"@,
        msg@.destination == destination@,
        msg@.namespace == "urn:x-cast:com.google.cast.tp.connection"@,
        json::parsed(msg@.payload) is Some,
        json::parsed(msg@.payload)->0.text_at("type"@) == Some("CONNECT"@),
{
}

/// A payload is a PING exactly if it is a JSON object of that type, however it is written.
pub proof fn pings_are_objects_of_that_type(payload: &str, is: bool)
    requires
        call_ensures(is_ping, (payload,), is),
    ensures
        ({
            let parsed = json::parsed(payload@);
            is <==> parsed is Some && parsed->0 is Object && parsed->0->Object_0.dom().contains(
                "type"@,
            ) && parsed->0->Object_0["type"@] == Json::Text("PING"@)
        }),
{
}

/// What is done about a frame is what is done about the message that it decodes to, on behalf of
/// the fixed sender; a frame that does not decode is discarded.
pub proof fn frames_are_handled_by_their_message(
    body: &[u8],
    action: Option<Action>,
    decoded: Result<CastMessage, crate::cast_channel::DecodeError>,
    payload: &str,
    pinged: bool,
    reaction: Option<Action>,
)
    requires
        call_ensures(react_to_frame, (body,), action),
        call_ensures(decode_cast_message, (body,), decoded),
        decoded is Ok ==> payload@ == decoded->Ok_0@.payload && call_ensures(
            is_ping,
            (payload,),
            pinged,
        ) && call_ensures(react, (decoded->Ok_0, pinged, "sender-0"), reaction),
    ensures
        decoded matches Err(e) ==> action is Some && action->0@ == ActionView::Discard(e),
        decoded is Ok ==> action is Some == reaction is Some,
        decoded is Ok && action is Some ==> action->0@ == reaction->0@,
{
}

/// What is done about frames one after the other.
pub open spec fn reactions(bodies: Seq<Seq<u8>>) -> Seq<ActionView>
    decreases bodies.len(),
{
    if bodies.len() == 0 {
        Seq::empty()
    } else {
        match frame_reaction(bodies[0]) {
            Some(action) => seq![action] + reactions(bodies.skip(1)),
            None => reactions(bodies.skip(1)),
        }
    }
}

proof fn lemma_drained_is_cut(stream: Seq<u8>)
    ensures
        drained(stream).0 == reactions(crate::cast_channel::cut(stream, u32::MAX).bodies),
        drained(stream).1 == crate::cast_channel::cut(stream, u32::MAX).rest,
    decreases stream.len(),
{
    let taken = crate::cast_channel::cut(stream, u32::MAX);
    match crate::cast_channel::first_frame(stream, u32::MAX) {
        FrameView::Complete { body, rest } => {
            lemma_drained_is_cut(rest);
            assert(taken.bodies[0] == body);
            assert(taken.bodies.skip(1) =~= crate::cast_channel::cut(rest, u32::MAX).bodies);
            assert(drained(stream).0 =~= reactions(taken.bodies));
        },
        _ => {},
    }
}

/// What a read leads to: bytes that arrive are put behind those that are there, and the frames
/// that are then complete, of any size, are handled in their order. An empty read means that the
/// peer closed the stream, and any error ends the session.
pub proof fn reads_lead_to_what_they_bring(
    dispatcher: &mut Dispatcher,
    event: ReadEvent,
    step: (Vec<Action>, Option<SessionEnd>),
)
    requires
        call_ensures(Dispatcher::on_read, (dispatcher, event), step),
    ensures
        event is Data && event->Data_0@.len() > 0 ==> {
            let taken = crate::cast_channel::cut(
                old(dispatcher).acc@ + event->Data_0@,
                0xFFFF_FFFF,
            );
            &&& crate::cast_channel::action_views(step.0@) == reactions(taken.bodies)
            &&& final(dispatcher).acc@ == taken.rest
            &&& step.1 is None
        },
        event is Data && event->Data_0@.len() == 0 ==> step.1 == Some(SessionEnd::PeerClosed)
            && step.0@.len() == 0 && final(dispatcher).acc@ == old(dispatcher).acc@,
        event is UnexpectedEof || event is OtherError ==> step.1 == Some(SessionEnd::ReadFailed)
            && step.0@.len() == 0 && final(dispatcher).acc@ == old(dispatcher).acc@,
        event is WouldBlock || event is TimedOut ==> step.1 is None,
        (event is WouldBlock || event is TimedOut) && crate::cast_channel::first_frame(
            old(dispatcher).acc@,
            0xFFFF_FFFF,
        ) is Incomplete ==> step.0@.len() == 0 && final(dispatcher).acc@ == old(dispatcher).acc@,
        final(dispatcher).last_ping == old(dispatcher).last_ping,
{
    if event is Data {
        lemma_drained_is_cut(old(dispatcher).acc@ + event->Data_0@);
    } else {
        assert(old(dispatcher).acc@ + Seq::<u8>::empty() =~= old(dispatcher).acc@);
        assert(crate::cast_channel::action_views(step.0@).len() == step.0@.len());
    }
}

/// A PING from the fixed sender to the device is due exactly when five seconds have gone by since
/// the last one.
pub proof fn pings_are_due_every_five_seconds(
    opened: u64,
    fresh: Dispatcher,
    dispatcher: &mut Dispatcher,
    pinged_at: u64,
    other: &Dispatcher,
    now: u64,
    due: Option<CastMessage>,
)
    requires
        call_ensures(Dispatcher::new, (opened,), fresh),
        call_ensures(Dispatcher::pinged, (dispatcher, pinged_at), ()),
        call_ensures(Dispatcher::heartbeat, (other, now), due),
    ensures
        fresh.last_ping == opened && fresh.acc@.len() == 0,
        final(dispatcher).last_ping == pinged_at,
        final(dispatcher).acc@ == old(dispatcher).acc@,
        due is Some <==> now >= other.last_ping + 5_000,
        due matches Some(ping) ==> {
            &&& ping@.source == "sender-0"@
            &&& ping@.destination == "receiver-0"@
            &&& ping@.namespace == "urn:x-cast:com.google.cast.tp.heartbeat"@
            &&& ping@.payload == "{\"type\":\"PING\"}"@
        },
{
}

/// The loop goes on as one that flushes does, but is over where that one would flush. It begins
/// with reading, unless its end was asked for already.
pub proof fn loops_end_without_flushing(
    stop: bool,
    started: SessionLoop,
    session: &mut SessionLoop,
    flushing: &mut SessionLoop,
    event: LoopEvent,
)
    requires
        call_ensures(start_loop, (stop,), started),
        call_ensures(advance_loop, (session, event), ()),
        call_ensures(SessionLoop::advance, (flushing, event), ()),
        *old(session) == *old(flushing),
    ensures
        started.phase == (if stop {
            Phase::Over
        } else {
            Phase::Read
        }),
        !started.ending,
        final(session).phase != Phase::Flush,
        final(session).phase == final(flushing).phase || final(flushing).phase == Phase::Flush
            && final(session).phase == Phase::Over,
        final(session).ending == final(flushing).ending,
{
}

} // verus!
