//! The virtual sink: its name, the part of a buffer that holds audio, and what the states of
//! the PipeWire stream mean.

use vstd::prelude::*;

use crate::capture::CHANNELS;
use crate::capture::SAMPLE_RATE;
use crate::text::ascii_lower;
use crate::text::push_decimal;

verus! {

/// About 170 ms at 48 kHz, which only has to absorb the jitter of the encoding thread.
pub const RING_CAPACITY_FRAMES: usize = 8192;

/// How long the sink may take to start.
pub const READY_TIMEOUT_SECS: u64 = 10;

/// Whether a character is an ASCII letter or digit.
pub open spec fn is_plain(c: char) -> bool {
    ||| 'a' <= c && c <= 'z'
    ||| 'A' <= c && c <= 'Z'
    ||| '0' <= c && c <= '9'
}

/// A name in lower case, with one underscore for each run of characters that are neither
/// letters nor digits, except at the start.
pub open spec fn slug(name: Seq<char>) -> Seq<char>
    decreases name.len(),
{
    if name.len() == 0 {
        Seq::empty()
    } else {
        let before = slug(name.drop_last());
        if is_plain(name.last()) {
            before.push(crate::text::lower_char(name.last()))
        } else if before.len() > 0 && before.last() != '_' {
            before.push('_')
        } else {
            before
        }
    }
}

/// A text without the underscores at its end.
pub open spec fn trimmed(text: Seq<char>) -> Seq<char>
    decreases text.len(),
{
    if text.len() > 0 && text.last() == '_' {
        trimmed(text.drop_last())
    } else {
        text
    }
}

/// The node name of the sink for a device.
pub open spec fn sink_name(device_name: Seq<char>) -> Seq<char> {
    trimmed("chromecast_sink_"@ + slug(device_name))
}

/// Makes the name of a device the node name of its sink.
pub fn sanitize_sink_name(device_name: &str) -> (name: String)
    ensures
        name@ == sink_name(device_name@),
{
    let ghost prefix = "chromecast_sink_"@;
    let mut chars: Vec<char> = Vec::new();
    for c in iter: "chromecast_sink_".chars()
        invariant
            chars@ == iter.seq().take(iter.index() as int),
            iter.seq() == prefix,
    {
        proof {
            assert(iter.seq().take(iter.index() + 1) =~= iter.seq().take(iter.index() as int).push(
                c,
            ));
        }
        chars.push(c);
    }
    assert(prefix.take(prefix.len() as int) =~= prefix);
    let mut after_underscore: bool = true;
    assert(chars@ =~= prefix + slug(device_name@.take(0)));
    for c in iter: device_name.chars()
        invariant
            iter.seq() == device_name@,
            chars@ == prefix + slug(device_name@.take(iter.index() as int)),
            after_underscore == ({
                let before = slug(device_name@.take(iter.index() as int));
                before.len() == 0 || before.last() == '_'
            }),
    {
        proof {
            let n = iter.index() as int;
            assert(device_name@.take(n + 1).drop_last() =~= device_name@.take(n));
            assert(device_name@.take(n + 1).last() == c);
        }
        if ('a' <= c && c <= 'z') || ('A' <= c && c <= 'Z') || ('0' <= c && c <= '9') {
            chars.push(ascii_lower(c));
            after_underscore = false;
        } else if !after_underscore {
            chars.push('_');
            after_underscore = true;
        }
        assert(chars@ =~= prefix + slug(device_name@.take(iter.index() + 1)));
    }
    assert(device_name@.take(device_name@.len() as int) =~= device_name@);
    let ghost whole = chars@;
    while chars.len() > 0 && chars[chars.len() - 1] == '_'
        invariant
            trimmed(chars@) == trimmed(whole),
        decreases chars@.len(),
    {
        let ghost before = chars@;
        let _ = chars.pop();
        assert(chars@ =~= before.drop_last());
    }
    assert(chars@ == trimmed(whole));
    let mut name: String = String::new();
    let mut i: usize = 0;
    while i < chars.len()
        invariant
            i <= chars@.len(),
            name@ == chars@.take(i as int),
        decreases chars@.len() - i,
    {
        assert(chars@.take(i + 1) =~= chars@.take(i as int).push(chars@[i as int]));
        name.push(chars[i]);
        i = i + 1;
    }
    assert(chars@.take(i as int) =~= chars@);
    name
}

/// What the sink for a device is called in the sound settings.
pub open spec fn described(device_name: Seq<char>) -> Seq<char> {
    "Chromecast - "@ + device_name
}

/// What the sink for a device is called in the sound settings.
pub fn description(device_name: &str) -> (text: String)
    ensures
        text@ == described(device_name@),
{
    let mut text: String = "Chromecast - ".to_owned();
    text.append(device_name);
    text
}

/// The properties of the sink's node. The graph asks it for small quanta and never lets it
/// rest: when no client plays, the stream to the receiver must go on.
pub open spec fn properties(name: Seq<char>, label: Seq<char>) -> Seq<(Seq<char>, Seq<char>)> {
    seq![
        ("media.class"@, "Audio/Sink"@),
        ("node.name"@, name),
        ("node.description"@, label),
        ("device.class"@, "sound"@),
        ("device.icon-name"@, "audio-speakers"@),
        ("node.virtual"@, "true"@),
        ("node.force-quantum"@, "256"@),
        ("node.always-process"@, "true"@),
        ("node.suspend-on-idle"@, "false"@),
    ]
}

fn add_property(list: &mut Vec<(String, String)>, key: &str, value: &str)
    ensures
        crate::discovery::txt_views(final(list)@) == crate::discovery::txt_views(old(list)@).push(
            (key@, value@),
        ),
{
    let entry: (String, String) = (key.to_owned(), value.to_owned());
    let ghost view = (entry.0@, entry.1@);
    list.push(entry);
    assert(crate::discovery::txt_views(list@) =~= crate::discovery::txt_views(old(list)@).push(
        view,
    ));
}

/// The properties of the sink's node.
pub fn node_properties(name: &str, label: &str) -> (list: Vec<(String, String)>)
    ensures
        crate::discovery::txt_views(list@) == properties(name@, label@),
{
    let mut list: Vec<(String, String)> = Vec::new();
    add_property(&mut list, "media.class", "Audio/Sink");
    add_property(&mut list, "node.name", name);
    add_property(&mut list, "node.description", label);
    add_property(&mut list, "device.class", "sound");
    add_property(&mut list, "device.icon-name", "audio-speakers");
    add_property(&mut list, "node.virtual", "true");
    add_property(&mut list, "node.force-quantum", "256");
    add_property(&mut list, "node.always-process", "true");
    add_property(&mut list, "node.suspend-on-idle", "false");
    assert(crate::discovery::txt_views(list@) =~= properties(name@, label@));
    list
}

/// What to do about a buffer.
#[derive(Debug, Clone, Copy, PartialEq, Eq, Structural)]
pub enum Chunk {
    /// The buffer has no memory; leave it and those after it.
    Missing,
    /// The buffer holds no audio.
    Empty,
    /// The audio stands from `start` to `end`.
    Bytes { start: usize, end: usize },
}

/// Where the audio stands in a buffer of `len` bytes. The offset counts modulo the length,
/// and the audio ends with the buffer at the latest.
pub open spec fn chunk_of(offset: usize, size: usize, len: usize) -> Chunk {
    if len == 0 {
        Chunk::Missing
    } else if size == 0 {
        Chunk::Empty
    } else {
        let start = offset % len;
        Chunk::Bytes {
            start,
            end: if start + size < len {
                (start + size) as usize
            } else {
                len
            },
        }
    }
}

/// Finds the audio in a buffer of `len` bytes.
pub fn find_chunk(offset: usize, size: usize, len: usize) -> (chunk: Chunk)
    ensures
        chunk == chunk_of(offset, size, len),
{
    if len == 0 {
        return Chunk::Missing;
    }
    let start: usize = offset % len;
    let end: usize = if size < len - start {
        start + size
    } else {
        len
    };
    if start < end {
        Chunk::Bytes { start, end }
    } else {
        Chunk::Empty
    }
}

/// Whether the negotiated format is the one that the ring takes.
pub fn format_matches(is_s16le: bool, rate: u32, channels: u32) -> (matches: bool)
    ensures
        matches == (is_s16le && rate == SAMPLE_RATE && channels == CHANNELS),
{
    is_s16le && rate == SAMPLE_RATE && channels == CHANNELS as u32
}

/// The states of a stream that mean something to the sink.
#[derive(Debug, Clone, Copy, PartialEq, Eq, Structural)]
pub enum StreamState {
    Streaming,
    Error,
    Unconnected,
    Other,
}

/// What to tell whoever waits for the sink to start.
#[derive(Debug, Clone, Copy, PartialEq, Eq, Structural)]
pub enum Signal {
    Nothing,
    Ready,
    Failed,
}

/// What a change of the stream leads to.
#[derive(Debug, Clone, Copy, PartialEq, Eq, Structural)]
pub struct Reaction {
    pub signal: Signal,
    /// Close the ring: no more audio will come.
    pub close: bool,
}

/// How far the sink has come: whether its start was reported, and whether its end was asked
/// for.
#[derive(Debug, Clone, Copy, PartialEq, Eq, Structural)]
pub struct SinkState {
    pub signalled: bool,
    pub shutdown: bool,
}

impl SinkState {
    /// What a change of the stream leads to. The start is reported once. An error, or the
    /// end of a connection that nobody asked for, ends the audio.
    pub open spec fn reaction(self, state: StreamState) -> Reaction {
        match state {
            StreamState::Streaming => Reaction {
                signal: if self.signalled {
                    Signal::Nothing
                } else {
                    Signal::Ready
                },
                close: false,
            },
            StreamState::Error => Reaction {
                signal: if self.signalled {
                    Signal::Nothing
                } else {
                    Signal::Failed
                },
                close: true,
            },
            StreamState::Unconnected => Reaction {
                signal: Signal::Nothing,
                close: self.signalled && !self.shutdown,
            },
            StreamState::Other => Reaction { signal: Signal::Nothing, close: false },
        }
    }

    /// The sink after a change of the stream.
    pub open spec fn after(self, state: StreamState) -> SinkState {
        SinkState {
            signalled: self.signalled || state == StreamState::Streaming || state
                == StreamState::Error,
            ..self
        }
    }

    /// A sink that has not started.
    pub fn new() -> (sink: SinkState)
        ensures
            sink == (SinkState { signalled: false, shutdown: false }),
    {
        SinkState { signalled: false, shutdown: false }
    }

    /// Takes in a change of the stream.
    pub fn on_state(&mut self, state: StreamState) -> (reaction: Reaction)
        ensures
            reaction == old(self).reaction(state),
            *final(self) == old(self).after(state),
    {
        match state {
            StreamState::Streaming => {
                let signal: Signal = if self.signalled {
                    Signal::Nothing
                } else {
                    Signal::Ready
                };
                self.signalled = true;
                Reaction { signal, close: false }
            },
            StreamState::Error => {
                let signal: Signal = if self.signalled {
                    Signal::Nothing
                } else {
                    Signal::Failed
                };
                self.signalled = true;
                Reaction { signal, close: true }
            },
            StreamState::Unconnected => Reaction {
                signal: Signal::Nothing,
                close: self.signalled && !self.shutdown,
            },
            StreamState::Other => Reaction { signal: Signal::Nothing, close: false },
        }
    }

    /// Notes that the end of the sink was asked for.
    pub fn on_quit(&mut self)
        ensures
            *final(self) == (SinkState { shutdown: true, ..*old(self) }),
    {
        self.shutdown = true;
    }

    /// Takes in that the loop has ended, on demand or by itself. Whoever still waits for the
    /// start is told, and the ring is closed.
    pub fn on_loop_exit(&mut self) -> (reaction: Reaction)
        ensures
            reaction == (Reaction {
                signal: if old(self).signalled {
                    Signal::Nothing
                } else {
                    Signal::Failed
                },
                close: true,
            }),
            *final(self) == (SinkState { signalled: true, ..*old(self) }),
    {
        let signal: Signal = if self.signalled {
            Signal::Nothing
        } else {
            Signal::Failed
        };
        self.signalled = true;
        Reaction { signal, close: true }
    }
}

/// Why there is no sink.
#[derive(Debug)]
pub enum SinkError {
    /// The stream failed, in these words.
    Stream(String),
    Listener(String),
    Connect(String),
    LoopExited,
    NotStarted,
    ThreadDied,
}

impl SinkError {
    /// What went wrong, in words.
    pub open spec fn words(self) -> Seq<char> {
        match self {
            SinkError::Stream(cause) => "pipewire stream error: "@ + cause@,
            SinkError::Listener(cause) => "register stream listener: "@ + cause@,
            SinkError::Connect(cause) => "connect sink stream: "@ + cause@,
            SinkError::LoopExited => "pipewire loop exited before the sink started"@,
            SinkError::NotStarted => "virtual sink was not started within "@
                + crate::text::decimal(READY_TIMEOUT_SECS as nat)
                + "s — is a session manager (wireplumber) running?"@,
            SinkError::ThreadDied => "pipewire thread died before sink was ready"@,
        }
    }

    /// What went wrong, in words.
    pub fn message(&self) -> (text: String)
        ensures
            text@ == self.words(),
    {
        match self {
            SinkError::Stream(cause) => {
                let mut text: String = "pipewire stream error: ".to_owned();
                text.append(cause.as_str());
                text
            },
            SinkError::Listener(cause) => {
                let mut text: String = "register stream listener: ".to_owned();
                text.append(cause.as_str());
                text
            },
            SinkError::Connect(cause) => {
                let mut text: String = "connect sink stream: ".to_owned();
                text.append(cause.as_str());
                text
            },
            SinkError::LoopExited => "pipewire loop exited before the sink started".to_owned(),
            SinkError::NotStarted => {
                let mut text: String = "virtual sink was not started within ".to_owned();
                push_decimal(&mut text, READY_TIMEOUT_SECS);
                text.append("s — is a session manager (wireplumber) running?");
                text
            },
            SinkError::ThreadDied => "pipewire thread died before sink was ready".to_owned(),
        }
    }
}

/// Whether every character is a lower-case letter, a digit or an underscore.
pub open spec fn is_node_name(text: Seq<char>) -> bool {
    forall|i: int|
        0 <= i < text.len() ==> {
            let c = #[trigger] text[i];
            ('a' <= c && c <= 'z') || ('0' <= c && c <= '9') || c == '_'
        }
}

proof fn lemma_slug(name: Seq<char>)
    ensures
        is_node_name(slug(name)),
        slug(name).len() > 0 ==> slug(name)[0] != '_',
        forall|i: int| 0 < i < slug(name).len() && slug(name)[i - 1] == '_' ==> #[trigger] slug(
            name,
        )[i] != '_',
    decreases name.len(),
{
    if name.len() > 0 {
        lemma_slug(name.drop_last());
    }
}

proof fn lemma_trimmed(text: Seq<char>)
    ensures
        trimmed(text).len() <= text.len(),
        trimmed(text) == text.take(trimmed(text).len() as int),
        trimmed(text).len() > 0 ==> trimmed(text).last() != '_',
        forall|i: int| trimmed(text).len() <= i < text.len() ==> text[i] == '_',
    decreases text.len(),
{
    if text.len() > 0 && text.last() == '_' {
        lemma_trimmed(text.drop_last());
        let short = trimmed(text);
        assert(text.take(short.len() as int) =~= text.drop_last().take(short.len() as int));
        assert forall|i: int| short.len() <= i < text.len() implies text[i] == '_' by {
            if i < text.len() - 1 {
                assert(text.drop_last()[i] == '_');
            }
        }
    } else {
        assert(text.take(text.len() as int) =~= text);
    }
}

/// A node name begins with `chromecast_sink`, is made of lower-case letters, digits and
/// underscores, has no two underscores in a row, and does not end with an underscore.
pub proof fn sink_names_are_clean(device_name: Seq<char>)
    ensures
        is_node_name(sink_name(device_name)),
        sink_name(device_name).len() >= 15,
        sink_name(device_name).take(15) == "chromecast_sink"@,
        sink_name(device_name).last() != '_',
        forall|i: int|
            0 < i < sink_name(device_name).len() && sink_name(device_name)[i - 1] == '_'
                ==> #[trigger] sink_name(device_name)[i] != '_',
{
    let prefix = "chromecast_sink_"@;
    let whole = prefix + slug(device_name);
    reveal_strlit("chromecast_sink_");
    reveal_strlit("chromecast_sink");
    lemma_slug(device_name);
    lemma_trimmed(whole);
    assert(is_node_name(whole));
    let name = sink_name(device_name);
    assert(whole[14] == 'k');
    if name.len() < 15 {
        assert(whole[14] == '_');
    }
    assert(name.take(15) =~= "chromecast_sink"@);
    assert forall|i: int| 0 <= i < name.len() implies {
        let c = #[trigger] name[i];
        ('a' <= c && c <= 'z') || ('0' <= c && c <= '9') || c == '_'
    } by {
        assert(name[i] == whole[i]);
    }
}

/// Whether a character, by its code, is one of the ten ASCII digits or the fifty-two ASCII
/// letters.
pub open spec fn is_word_char(c: char) -> bool {
    ||| 48 <= c as u32 <= 57
    ||| 65 <= c as u32 <= 90
    ||| 97 <= c as u32 <= 122
}

/// The words of a name: its longest runs of ASCII letters and digits, in order.
pub open spec fn words(name: Seq<char>) -> Seq<Seq<char>>
    decreases name.len(),
{
    if name.len() == 0 {
        Seq::empty()
    } else {
        let front = name.drop_last();
        let before = words(front);
        if !is_word_char(name.last()) {
            before
        } else if front.len() > 0 && is_word_char(front.last()) {
            before.drop_last().push(before.last().push(name.last()))
        } else {
            before.push(seq![name.last()])
        }
    }
}

/// Words in lower case, each with an underscore before it.
pub open spec fn underscored(list: Seq<Seq<char>>) -> Seq<char>
    decreases list.len(),
{
    if list.len() == 0 {
        Seq::empty()
    } else {
        underscored(list.drop_last()) + seq!['_'] + crate::text::lower(list.last())
    }
}

/// How the slug of a name is made of its words.
proof fn lemma_slug_of_words(name: Seq<char>)
    ensures
        words(name).len() == 0 ==> slug(name).len() == 0 && (name.len() == 0 || !is_plain(
            name.last(),
        )),
        words(name).len() > 0 ==> words(name).last().len() > 0 && seq!['_'] + slug(name) == (
        if is_plain(name.last()) {
            underscored(words(name))
        } else {
            underscored(words(name)).push('_')
        }) && underscored(words(name)).last() != '_' && (is_plain(name.last()) ==> slug(name).len()
            > 0 && slug(name).last() != '_'),
        words(name).len() > 0 ==> slug(name).len() > 0,
    decreases name.len(),
{
    if name.len() > 0 {
        let front = name.drop_last();
        let c = name.last();
        let low = crate::text::lower_char(c);
        let before = words(front);
        lemma_slug_of_words(front);
        if is_plain(c) {
            assert(low != '_');
            assert(seq!['_'] + slug(name) =~= (seq!['_'] + slug(front)).push(low));
            if front.len() > 0 && is_plain(front.last()) {
                let word = before.last();
                assert(words(name).drop_last() =~= before.drop_last());
                assert(crate::text::lower(word.push(c)) =~= crate::text::lower(word).push(low));
                assert(underscored(words(name)) =~= underscored(before).push(low));
            } else {
                assert(words(name).drop_last() =~= before);
                assert(crate::text::lower(seq![c]) =~= seq![low]);
                assert(underscored(words(name)) =~= underscored(before).push('_').push(low));
                if before.len() == 0 {
                    assert(seq!['_'] + slug(front) =~= underscored(before).push('_'));
                }
            }
        } else if before.len() > 0 {
            if is_plain(front.last()) {
                assert(seq!['_'] + slug(name) =~= (seq!['_'] + slug(front)).push('_'));
            } else {
                assert((seq!['_'] + slug(front)).last() == '_');
                assert(slug(front).last() == '_');
            }
        }
    }
}

/// The node name of a sink is `chromecast_sink` and the words of the device's name in lower
/// case, with one underscore before each and nothing of what stands between them.
pub proof fn sink_names_are_made_of_words(device_name: Seq<char>)
    ensures
        sink_name(device_name) == "chromecast_sink"@ + underscored(words(device_name)),
{
    reveal_strlit("chromecast_sink_");
    reveal_strlit("chromecast_sink");
    let base = "chromecast_sink"@;
    let list = words(device_name);
    let whole = "chromecast_sink_"@ + slug(device_name);
    lemma_slug_of_words(device_name);
    assert("chromecast_sink_"@ =~= base.push('_'));
    assert(whole =~= base + (seq!['_'] + slug(device_name)));
    let name = base + underscored(list);
    reveal_with_fuel(trimmed, 2);
    assert(name.last() != '_');
    if list.len() == 0 {
        assert(whole =~= base.push('_'));
        assert(whole.drop_last() =~= base);
        assert(name =~= base);
    } else if !is_plain(device_name.last()) {
        assert(whole =~= name.push('_'));
        assert(whole.drop_last() =~= name);
    }
}

/// Two devices whose names have the same words, but for case, have sinks of the same name.
pub proof fn sink_names_depend_on_words(one: Seq<char>, other: Seq<char>)
    requires
        words(one).len() == words(other).len(),
        forall|i: int|
            0 <= i < words(one).len() ==> crate::text::lower(#[trigger] words(one)[i])
                == crate::text::lower(words(other)[i]),
    ensures
        sink_name(one) == sink_name(other),
{
    sink_names_are_made_of_words(one);
    sink_names_are_made_of_words(other);
    lemma_underscored_lowers(words(one), words(other));
}

proof fn lemma_underscored_lowers(one: Seq<Seq<char>>, other: Seq<Seq<char>>)
    requires
        one.len() == other.len(),
        forall|i: int|
            0 <= i < one.len() ==> crate::text::lower(#[trigger] one[i]) == crate::text::lower(
                other[i],
            ),
    ensures
        underscored(one) == underscored(other),
    decreases one.len(),
{
    if one.len() > 0 {
        assert forall|i: int| 0 <= i < one.drop_last().len() implies crate::text::lower(
            #[trigger] one.drop_last()[i],
        ) == crate::text::lower(other.drop_last()[i]) by {
            assert(one.drop_last()[i] == one[i]);
        }
        lemma_underscored_lowers(one.drop_last(), other.drop_last());
        assert(one[one.len() - 1] == one.last());
    }
}

/// The audio of a buffer lies inside it.
pub proof fn chunks_stay_inside(offset: usize, size: usize, len: usize)
    ensures
        chunk_of(offset, size, len) matches Chunk::Bytes { start, end } ==> start < end <= len
            && end - start <= size,
{
    if len > 0 {
        vstd::arithmetic::div_mod::lemma_mod_bound(offset as int, len as int);
    }
}

/// A sink after a series of changes of its stream.
pub open spec fn after_all(sink: SinkState, states: Seq<StreamState>) -> SinkState
    decreases states.len(),
{
    if states.len() == 0 {
        sink
    } else {
        after_all(sink, states.drop_last()).after(states.last())
    }
}

/// The start of a sink is reported at most once: whatever follows a report, no other comes.
pub proof fn start_is_reported_once(
    sink: SinkState,
    reported: StreamState,
    between: Seq<StreamState>,
    later: StreamState,
)
    requires
        sink.reaction(reported).signal != Signal::Nothing,
    ensures
        after_all(sink.after(reported), between).reaction(later).signal == Signal::Nothing,
{
    lemma_signalled_stays(sink.after(reported), between);
}

proof fn lemma_signalled_stays(sink: SinkState, states: Seq<StreamState>)
    requires
        sink.signalled,
    ensures
        after_all(sink, states).signalled,
    decreases states.len(),
{
    if states.len() > 0 {
        lemma_signalled_stays(sink, states.drop_last());
    }
}

/// A sink is called by the name of its device, with the words before it that say what it is.
pub proof fn descriptions_hold_the_name(device_name: &str, text: String)
    requires
        call_ensures(description, (device_name,), text),
    ensures
        text@.take(13) == "Chromecast - "@,
        text@.skip(13) == device_name@,
{
    reveal_strlit("Chromecast - ");
    assert(text@.take(13) =~= "Chromecast - "@);
    assert(text@.skip(13) =~= device_name@);
}

/// The node that is announced is a sink with the name and the label that it is given, which asks
/// for quanta of 256 frames and is never suspended.
pub proof fn nodes_are_announced_as_sinks(name: &str, label: &str, list: Vec<(String, String)>)
    requires
        call_ensures(node_properties, (name, label), list),
    ensures
        ({
            let all = crate::discovery::txt_views(list@);
            &&& all.len() == 9
            &&& all.contains(("media.class"@, "Audio/Sink"@))
            &&& all.contains(("node.name"@, name@))
            &&& all.contains(("node.description"@, label@))
            &&& all.contains(("device.class"@, "sound"@))
            &&& all.contains(("device.icon-name"@, "audio-speakers"@))
            &&& all.contains(("node.virtual"@, "true"@))
            &&& all.contains(("node.force-quantum"@, "256"@))
            &&& all.contains(("node.always-process"@, "true"@))
            &&& all.contains(("node.suspend-on-idle"@, "false"@))
        }),
{
    let all = crate::discovery::txt_views(list@);
    assert(all[0] == ("media.class"@, "Audio/Sink"@));
    assert(all[1] == ("node.name"@, name@));
    assert(all[2] == ("node.description"@, label@));
    assert(all[3] == ("device.class"@, "sound"@));
    assert(all[4] == ("device.icon-name"@, "audio-speakers"@));
    assert(all[5] == ("node.virtual"@, "true"@));
    assert(all[6] == ("node.force-quantum"@, "256"@));
    assert(all[7] == ("node.always-process"@, "true"@));
    assert(all[8] == ("node.suspend-on-idle"@, "false"@));
}

/// The audio of a buffer begins at its offset, counted modulo the length of the buffer, and goes
/// on for its size, but not beyond the buffer. Without a size there is none, and without memory
/// the buffer is left.
pub proof fn chunks_begin_at_their_offset(offset: usize, size: usize, len: usize, chunk: Chunk)
    requires
        call_ensures(find_chunk, (offset, size, len), chunk),
    ensures
        chunk is Missing <==> len == 0,
        chunk is Empty <==> len > 0 && size == 0,
        chunk matches Chunk::Bytes { start, end } ==> {
            &&& exists|laps: int| offset == #[trigger] (laps * len) + start
            &&& start < len
            &&& start < end <= len
            &&& end == len || end == start + size
            &&& end - start <= size
        },
{
    if len > 0 {
        vstd::arithmetic::div_mod::lemma_fundamental_div_mod(offset as int, len as int);
        vstd::arithmetic::div_mod::lemma_mod_bound(offset as int, len as int);
        let laps = offset as int / len as int;
        vstd::arithmetic::mul::lemma_mul_is_commutative(laps, len as int);
        assert(offset == laps * len + offset as int % len as int);
    }
}

/// The ring takes signed 16-bit little-endian stereo at 48 kHz and nothing else.
pub proof fn the_ring_takes_one_format(is_s16le: bool, rate: u32, channels: u32, matches: bool)
    requires
        call_ensures(format_matches, (is_s16le, rate, channels), matches),
    ensures
        matches <==> is_s16le && rate == 48_000 && channels == 2,
{
}

/// What a change of the stream leads to. The first time that it streams the start is reported,
/// and the first time that it fails instead, the failure. A failure ends the audio, and so does
/// losing the connection after the start, unless the end was asked for; nothing else does.
pub proof fn changes_of_the_stream_are_reported(
    sink: &mut SinkState,
    state: StreamState,
    reaction: Reaction,
)
    requires
        call_ensures(SinkState::on_state, (sink, state), reaction),
    ensures
        reaction.signal == Signal::Ready <==> state == StreamState::Streaming && !old(sink).signalled,
        reaction.signal == Signal::Failed <==> state == StreamState::Error && !old(sink).signalled,
        reaction.close <==> state == StreamState::Error || state == StreamState::Unconnected && old(sink).signalled && !old(sink).shutdown,
        final(sink).signalled <==> old(sink).signalled || state == StreamState::Streaming || state
            == StreamState::Error,
        final(sink).shutdown == old(sink).shutdown,
{
}

/// A new sink has reported nothing. Asking for its end changes nothing but that. When its loop
/// has ended the audio ends, and whoever still waits for the start is told that it failed.
pub proof fn ends_of_the_loop_are_reported(
    fresh: SinkState,
    quitting: &mut SinkState,
    leaving: &mut SinkState,
    reaction: Reaction,
)
    requires
        call_ensures(SinkState::new, (), fresh),
        call_ensures(SinkState::on_quit, (quitting,), ()),
        call_ensures(SinkState::on_loop_exit, (leaving,), reaction),
    ensures
        !fresh.signalled && !fresh.shutdown,
        final(quitting).shutdown,
        final(quitting).signalled == old(quitting).signalled,
        reaction.close,
        reaction.signal == (if old(leaving).signalled {
            Signal::Nothing
        } else {
            Signal::Failed
        }),
        final(leaving).signalled,
        final(leaving).shutdown == old(leaving).shutdown,
{
}

/// The node name of a sink, as it is made, is `chromecast_sink` and the words of the device's name
/// in lower case, with one underscore before each.
pub proof fn made_names_are_made_of_words(device_name: &str, name: String)
    requires
        call_ensures(sanitize_sink_name, (device_name,), name),
    ensures
        name@ == "chromecast_sink"@ + underscored(words(device_name@)),
{
    sink_names_are_made_of_words(device_name@);
}

/// A failure of the sink is reported with the whole of its cause at the end.
pub proof fn failures_quote_their_cause(error: &SinkError, text: String)
    requires
        call_ensures(SinkError::message, (error,), text),
    ensures
        *error matches SinkError::Stream(cause) ==> text@ == "pipewire stream error: "@ + cause@,
        *error matches SinkError::Listener(cause) ==> text@ == "register stream listener: "@
            + cause@,
        *error matches SinkError::Connect(cause) ==> text@ == "connect sink stream: "@ + cause@,
{
}

} // verus!
