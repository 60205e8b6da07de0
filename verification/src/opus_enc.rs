//! What the Opus encoder is asked for.

use vstd::prelude::*;

use crate::text::push_decimal;

verus! {

/// Room for an encoded frame.
pub const MAX_PACKET: usize = 4000;

/// How many channels are encoded.
#[derive(Debug, Clone, Copy, PartialEq, Eq, Structural)]
pub enum Layout {
    Mono,
    Stereo,
}

/// A number of channels that Opus does not encode.
#[derive(Debug, Clone, Copy, PartialEq, Eq, Structural)]
pub struct UnsupportedChannels {
    pub count: u8,
}

impl UnsupportedChannels {
    /// What is wrong, in words.
    pub open spec fn words(self) -> Seq<char> {
        "unsupported channel count: "@ + crate::text::decimal(self.count as nat)
    }

    /// What is wrong, in words.
    pub fn message(&self) -> (text: String)
        ensures
            text@ == self.words(),
    {
        let mut text: String = "unsupported channel count: ".to_owned();
        push_decimal(&mut text, self.count as u64);
        text
    }
}

/// The layout for a number of channels, which is one or two.
pub fn layout_for(channels: u8) -> (layout: Result<Layout, UnsupportedChannels>)
    ensures
        layout == (if channels == 1 {
            Ok(Layout::Mono)
        } else if channels == 2 {
            Ok(Layout::Stereo)
        } else {
            Err(UnsupportedChannels { count: channels })
        }),
{
    match channels {
        1 => Ok(Layout::Mono),
        2 => Ok(Layout::Stereo),
        n => Err(UnsupportedChannels { count: n }),
    }
}

/// One channel is encoded as mono, two as stereo, and any other number not at all.
pub proof fn one_or_two_channels_are_encoded(
    channels: u8,
    layout: Result<Layout, UnsupportedChannels>,
)
    requires
        call_ensures(layout_for, (channels,), layout),
    ensures
        layout is Ok <==> channels == 1 || channels == 2,
        layout == Ok::<Layout, UnsupportedChannels>(Layout::Mono) <==> channels == 1,
        layout matches Err(error) ==> error.count == channels,
{
}

/// An unsupported number of channels is named.
pub proof fn unsupported_channels_are_named(error: &UnsupportedChannels, text: String)
    requires
        call_ensures(UnsupportedChannels::message, (error,), text),
    ensures
        text@ == "unsupported channel count: "@ + crate::text::decimal(error.count as nat),
{
}

} // verus!
