//! RTP packets (RFC 3550).

use vstd::prelude::*;
use bytes::Bytes;

verus! {

#[verifier::external_type_specification]
#[verifier::external_body]
pub struct ExBytes(Bytes);

/// The fixed RTP header.
pub struct RtpHeader {
    version: u8,
    padding: bool,
    extension: bool,
    marker: bool,
    sequence_number: u16,
    payload_type: u8,
    ssrc: u32,
    csrc: Vec<u32>,
    timestamp: u32,
}

/// An RTP packet: its header and its payload.
pub struct RtpPacket {
    header: RtpHeader,
    payload: Bytes,
}

} // verus!
