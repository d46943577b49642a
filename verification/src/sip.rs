//! The parts of SIP messages that the session logic reads and writes.

use vstd::prelude::*;

verus! {

/// SIP request methods (RFC 3261 and extensions).
#[derive(Debug, Clone, Copy, PartialEq, Eq, Structural)]
pub enum SipMethod {
    Invite,
    Ack,
    Bye,
    Cancel,
    Options,
    Register,
    Info,
    Update,
    Prack,
    Subscribe,
    Notify,
    Refer,
    Message,
    Publish,
}

impl SipMethod {
    pub open spec fn text(self) -> Seq<char> {
        match self {
            SipMethod::Invite => "INVITE"@,
            SipMethod::Ack => "ACK"@,
            SipMethod::Bye => "BYE"@,
            SipMethod::Cancel => "CANCEL"@,
            SipMethod::Options => "OPTIONS"@,
            SipMethod::Register => "REGISTER"@,
            SipMethod::Info => "INFO"@,
            SipMethod::Update => "UPDATE"@,
            SipMethod::Prack => "PRACK"@,
            SipMethod::Subscribe => "SUBSCRIBE"@,
            SipMethod::Notify => "NOTIFY"@,
            SipMethod::Refer => "REFER"@,
            SipMethod::Message => "MESSAGE"@,
            SipMethod::Publish => "PUBLISH"@,
        }
    }

    /// The method's name as it stands in a request line.
    pub fn as_str(&self) -> (r: &'static str)
        ensures
            r@ == self.text(),
    {
        match self {
            SipMethod::Invite => "INVITE",
            SipMethod::Ack => "ACK",
            SipMethod::Bye => "BYE",
            SipMethod::Cancel => "CANCEL",
            SipMethod::Options => "OPTIONS",
            SipMethod::Register => "REGISTER",
            SipMethod::Info => "INFO",
            SipMethod::Update => "UPDATE",
            SipMethod::Prack => "PRACK",
            SipMethod::Subscribe => "SUBSCRIBE",
            SipMethod::Notify => "NOTIFY",
            SipMethod::Refer => "REFER",
            SipMethod::Message => "MESSAGE",
            SipMethod::Publish => "PUBLISH",
        }
    }
}

/// A received request: its method and its body, if any.
#[derive(Debug)]
pub struct IncomingRequest {
    pub method: SipMethod,
    pub body: Option<String>,
}

/// Header fields that the session logic adds to a request.
#[derive(Debug)]
pub enum Header {
    /// `Allow`: the methods the endpoint supports.
    Allow(Vec<SipMethod>),
    /// `Supported`: the extensions the endpoint supports.
    Supported(Vec<String>),
    /// `Content-Type`.
    ContentType(String),
}

/// A request to send: its method, the header fields added to it and its body.
#[derive(Debug)]
pub struct OutgoingRequest {
    pub method: SipMethod,
    pub headers: Vec<Header>,
    pub body: Option<String>,
}

} // verus!
