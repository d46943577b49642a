//! Errors of the library.

use vstd::prelude::*;

verus! {

/// What can go wrong in SDP handling and session set-up.
#[derive(Debug)]
pub enum Error {
    /// The negotiator is not in a state that admits the operation.
    ErrInvalidNegoState,
    /// The text is not a session description of the supported form.
    ErrSdpParse,
    /// A media format is not a payload type number.
    ErrInvalidPayloadType,
    /// A message was not what the operation expects.
    Custom(String),
    /// The receiving end of an event channel is gone.
    ChannelClosed,
}

/// Results of the library.
pub type Result<T> = core::result::Result<T, Error>;

} // verus!
