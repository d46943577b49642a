//! Media codecs as offered in SDP.

use vstd::prelude::*;
use vstd::string::*;

verus! {

broadcast use vstd::string::group_string_axioms;

/// A media codec: its encoding name, clock rate, RTP payload type, channel count and optional
/// format parameters.
#[derive(Debug)]
pub struct Codec {
    name: String,
    clock_rate: u32,
    payload_type: u8,
    channels: u16,
    sdp_fmtp_line: Option<String>,
}

pub struct CodecView {
    pub name: Seq<char>,
    pub clock_rate: u32,
    pub payload_type: u8,
    pub channels: u16,
    pub sdp_fmtp_line: Option<Seq<char>>,
}

impl View for Codec {
    type V = CodecView;

    closed spec fn view(&self) -> CodecView {
        CodecView {
            name: self.name@,
            clock_rate: self.clock_rate,
            payload_type: self.payload_type,
            channels: self.channels,
            sdp_fmtp_line: match self.sdp_fmtp_line {
                Some(f) => Some(f@),
                None => None,
            },
        }
    }
}

impl Clone for Codec {
    fn clone(&self) -> (r: Self)
        ensures
            r@ == self@,
    {
        Codec {
            name: self.name.clone(),
            clock_rate: self.clock_rate,
            payload_type: self.payload_type,
            channels: self.channels,
            sdp_fmtp_line: match &self.sdp_fmtp_line {
                Some(f) => Some(f.clone()),
                None => None,
            },
        }
    }
}

impl Codec {
    pub fn new(name: &str, clock_rate: u32, payload_type: u8, channels: u16, fmtp: Option<&str>) -> (r: Self)
        ensures
            r@ == (CodecView {
                name: name@,
                clock_rate: clock_rate,
                payload_type: payload_type,
                channels: channels,
                sdp_fmtp_line: match fmtp {
                    Some(f) => Some(f@),
                    None => None,
                },
            }),
    {
        Codec {
            name: String::from_str(name),
            clock_rate,
            payload_type,
            channels,
            sdp_fmtp_line: match fmtp {
                Some(f) => Some(String::from_str(f)),
                None => None,
            },
        }
    }

    /// G.711 mu-law (RFC 3551 section 4.5.14).
    pub fn ulaw() -> (r: Self)
        ensures
            r@ == (CodecView { name: "PCMU"@, clock_rate: 8000, payload_type: 0, channels: 1, sdp_fmtp_line: None }),
    {
        Self::new("PCMU", 8000, 0, 1, None)
    }

    /// G.711 A-law (RFC 3551 section 4.5.14).
    pub fn alaw() -> (r: Self)
        ensures
            r@ == (CodecView { name: "PCMA"@, clock_rate: 8000, payload_type: 8, channels: 1, sdp_fmtp_line: None }),
    {
        Self::new("PCMA", 8000, 8, 1, None)
    }

    /// Opus (RFC 7587).
    pub fn opus() -> (r: Self)
        ensures
            r@ == (CodecView { name: "opus"@, clock_rate: 48000, payload_type: 96, channels: 2, sdp_fmtp_line: None }),
    {
        Self::new("opus", 48000, 96, 2, None)
    }

    /// DTMF telephone events (RFC 4733), events 0 to 16.
    pub fn telephone_event() -> (r: Self)
        ensures
            r@ == (CodecView {
                name: "telephone-event"@,
                clock_rate: 8000,
                payload_type: 101,
                channels: 1,
                sdp_fmtp_line: Some("0-16"@),
            }),
    {
        Self::new("telephone-event", 8000, 101, 1, Some("0-16"))
    }

    pub fn channels(&self) -> (r: u16)
        ensures
            r == self@.channels,
    {
        self.channels
    }

    pub fn clock_rate(&self) -> (r: u32)
        ensures
            r == self@.clock_rate,
    {
        self.clock_rate
    }

    pub fn name(&self) -> (r: &str)
        ensures
            r@ == self@.name,
    {
        self.name.as_str()
    }

    pub fn pt(&self) -> (r: u8)
        ensures
            r == self@.payload_type,
    {
        self.payload_type
    }
}

} // verus!
