//! Media sessions of a SIP session.

use vstd::prelude::*;
use crate::net::IpAddr;
use crate::rtp::RtpPacket;
use crate::sdp::Direction;

verus! {

/// What the media of a session reports.
pub enum MediaEvent {
    RtpPacket(RtpPacket),
}

/// The media of a session.
pub struct SessionMedia {}

/// A media session as described by SDP: its name, id and version, owner, addresses and
/// direction.
pub struct MediaSession {
    session_name: String,
    session_id: u64,
    session_version: u64,
    session_onwer: String,
    local_addr: IpAddr,
    remote_addr: Option<IpAddr>,
    direction: Direction,
}

} // verus!
