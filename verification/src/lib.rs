//! Streams audio to a Chromecast or Google Nest device over Cast Streaming: the data
//! structures, formats, protocols and decisions of the sender, with their contracts.
//!
//! - `audio_ring` and `ring_protocol`: the ring buffer between the sink and the encoder.
//! - `protobuf`, `cast_channel` and `castv2`: messages, their framing, and what the channel
//!   does about each of them.
//! - `json`: the documents in messages.
//! - `mirroring` and `webrtc`: launching the receiver app and offering it the stream.
//! - `cast_rtp` and `stats`: encryption, packets, sender reports and statistics.
//! - `discovery`: devices on the network.
//! - `capture`, `virtual_sink`, `opus_enc`, `pipeline` and `orchestrator`: the decisions of a
//!   run.
//! - `bytes`, `text` and `wait`: what the others share.
//!
//! Sockets, threads, clocks and the sound system are left to the program around the library,
//! which hands in what happened and carries out what comes back.

pub mod audio_ring;
pub mod bytes;
pub mod capture;
pub mod cast_channel;
pub mod cast_rtp;
pub mod castv2;
pub mod discovery;
pub mod json;
pub mod mirroring;
pub mod opus_enc;
pub mod orchestrator;
pub mod pipeline;
pub mod protobuf;
pub mod ring_protocol;
pub mod stats;
pub mod text;
pub mod virtual_sink;
pub mod wait;
pub mod webrtc;
