use chromecast_sink::virtual_sink::{
    description, find_chunk, format_matches, node_properties, sanitize_sink_name, Chunk, Reaction,
    Signal, SinkError, SinkState, StreamState,
};

#[test]
fn sink_name_sanitize() {
    assert_eq!(sanitize_sink_name("Living Room speaker"), "chromecast_sink_living_room_speaker");
    assert_eq!(sanitize_sink_name("寝室"), "chromecast_sink");
    assert_eq!(sanitize_sink_name("Nest-Mini!"), "chromecast_sink_nest_mini");
}

#[test]
fn sink_names_have_single_underscores() {
    assert_eq!(sanitize_sink_name("__A  --  9__"), "chromecast_sink_a_9");
    assert_eq!(sanitize_sink_name(""), "chromecast_sink");
    assert_eq!(sanitize_sink_name("Küche 2"), "chromecast_sink_k_che_2");
}

#[test]
fn sink_names_are_the_words_of_the_device() {
    assert_eq!(sanitize_sink_name("Bedroom TV (2nd floor)"), "chromecast_sink_bedroom_tv_2nd_floor");
    assert_eq!(sanitize_sink_name("--bedroom.tv/2ND...FLOOR"), "chromecast_sink_bedroom_tv_2nd_floor");
    assert_eq!(sanitize_sink_name("bedroomtv 2ndfloor"), "chromecast_sink_bedroomtv_2ndfloor");
}

#[test]
fn description_names_the_device() {
    assert_eq!(description("Living Room"), "Chromecast - Living Room");
}

#[test]
fn node_is_a_sink_that_never_rests() {
    let list = node_properties("n", "d");
    let find = |key: &str| list.iter().find(|p| p.0 == key).map(|p| p.1.as_str());
    assert_eq!(list.len(), 9);
    assert_eq!(find("media.class"), Some("Audio/Sink"));
    assert_eq!(find("node.name"), Some("n"));
    assert_eq!(find("node.description"), Some("d"));
    assert_eq!(find("device.class"), Some("sound"));
    assert_eq!(find("device.icon-name"), Some("audio-speakers"));
    assert_eq!(find("node.virtual"), Some("true"));
    assert_eq!(find("node.force-quantum"), Some("256"));
    assert_eq!(find("node.always-process"), Some("true"));
    assert_eq!(find("node.suspend-on-idle"), Some("false"));
}

#[test]
fn chunks_are_cut_to_the_buffer() {
    assert_eq!(find_chunk(0, 0, 0), Chunk::Missing);
    assert_eq!(find_chunk(3, 4, 0), Chunk::Missing);
    assert_eq!(find_chunk(3, 0, 8), Chunk::Empty);
    assert_eq!(find_chunk(0, 8, 8), Chunk::Bytes { start: 0, end: 8 });
    assert_eq!(find_chunk(10, 4, 8), Chunk::Bytes { start: 2, end: 6 });
    assert_eq!(find_chunk(6, 4, 8), Chunk::Bytes { start: 6, end: 8 });
    assert_eq!(find_chunk(7, usize::MAX, 8), Chunk::Bytes { start: 7, end: 8 });
}

#[test]
fn only_the_ring_format_matches() {
    assert!(format_matches(true, 48_000, 2));
    assert!(!format_matches(false, 48_000, 2));
    assert!(!format_matches(true, 44_100, 2));
    assert!(!format_matches(true, 48_000, 1));
}

fn reaction(signal: Signal, close: bool) -> Reaction {
    Reaction { signal, close }
}

#[test]
fn start_is_signalled_once() {
    let mut sink = SinkState::new();
    assert_eq!(sink.on_state(StreamState::Other), reaction(Signal::Nothing, false));
    assert_eq!(sink.on_state(StreamState::Unconnected), reaction(Signal::Nothing, false));
    assert_eq!(sink.on_state(StreamState::Streaming), reaction(Signal::Ready, false));
    assert_eq!(sink.on_state(StreamState::Streaming), reaction(Signal::Nothing, false));
    assert_eq!(sink.on_state(StreamState::Error), reaction(Signal::Nothing, true));
    assert_eq!(sink.on_loop_exit(), reaction(Signal::Nothing, true));
}

#[test]
fn failure_to_start_is_signalled() {
    let mut sink = SinkState::new();
    assert_eq!(sink.on_state(StreamState::Error), reaction(Signal::Failed, true));
    assert_eq!(sink.on_state(StreamState::Streaming), reaction(Signal::Nothing, false));
    let mut dead = SinkState::new();
    assert_eq!(dead.on_loop_exit(), reaction(Signal::Failed, true));
    assert_eq!(dead.on_loop_exit(), reaction(Signal::Nothing, true));
}

#[test]
fn disconnection_matters_unless_asked_for() {
    let mut sink = SinkState::new();
    sink.on_state(StreamState::Streaming);
    assert_eq!(sink.on_state(StreamState::Unconnected), reaction(Signal::Nothing, true));
    sink.on_quit();
    assert_eq!(sink.on_state(StreamState::Unconnected), reaction(Signal::Nothing, false));
}

#[test]
fn sink_errors_say_what_is_wrong() {
    assert_eq!(SinkError::Stream("x".into()).message(), "pipewire stream error: x");
    assert_eq!(SinkError::Listener("x".into()).message(), "register stream listener: x");
    assert_eq!(SinkError::Connect("x".into()).message(), "connect sink stream: x");
    assert_eq!(
        SinkError::LoopExited.message(),
        "pipewire loop exited before the sink started"
    );
    assert_eq!(
        SinkError::NotStarted.message(),
        "virtual sink was not started within 10s — is a session manager (wireplumber) running?"
    );
    assert_eq!(SinkError::ThreadDied.message(), "pipewire thread died before sink was ready");
}
