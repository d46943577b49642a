//! Converting values into a byte buffer.

use vstd::prelude::*;
use crate::error::Error;
use crate::sdp::{SessionDescription, sdp_text};

verus! {

/// Converts a value into a buffer.
pub trait Encode {
    /// The buffer type that holds the encoded data.
    type Buffer;

    type Error;

    /// Converts the value into a byte buffer.
    fn encode(&self) -> Result<Self::Buffer, Self::Error>;
}

impl Encode for SessionDescription {
    type Buffer = String;

    type Error = Error;

    /// The SDP text of the description; never fails.
    fn encode(&self) -> (r: Result<String, Error>)
        ensures
            r matches Ok(s) && s@ == sdp_text(self@),
    {
        Ok(self.encode_sdp())
    }
}

} // verus!
