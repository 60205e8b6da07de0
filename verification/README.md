# chromecast-sink

Use Google Chromecast and Nest devices as a Linux speaker: a PipeWire virtual sink whose sound
is streamed to the device in real time, as Opus over encrypted Cast RTP.

- `src/` is the library: ring buffer, message and packet formats, the protocol with the
  receiver, device discovery, and the decisions of a run. It is written in Verus; its functions
  carry contracts, and the laws that relate several functions are public proof functions.
- `app/` is the program: argument handling, sockets, TLS, mDNS, PipeWire, the Opus encoder and
  threads. It performs what the library decides and reports back what happened.
- `tests/` runs the library on concrete values.

What comes from other crates (AES-CTR, JSON, hexadecimal text, random numbers) is called through
small trusted functions, each with a comment that says what is believed of the crate.

## Usage

    chromecast-sink
    chromecast-sink --device "Living Room speaker"

Then select "Chromecast - <device name>" as the audio output. Ctrl+C removes the sink and
disconnects.
