//! An INVITE session whose SDP is given by the application.

use vstd::prelude::*;
use vstd::string::*;
use crate::error::{Error, Result};
use crate::negotiator::{
    AnswerOutcome, NegotiationState, Negotiator, NegotiatorView, answer_session, answer_streams,
};
use crate::sdp::{SessionDescription, SessionView, sdp_text};
use crate::sdp_parser::{SdpParser, parse_sdp};
use crate::session::{fresh_negotiation, unexpected_method_text};
use crate::sip::{IncomingRequest, OutgoingRequest, SipMethod};

verus! {

broadcast use vstd::string::group_string_axioms;

/// An INVITE session in state `S`, with its SDP negotiation.
pub struct InviteSession<S> {
    state: S,
    sdp_negotiator: Negotiator,
}

/// A session opened by a received INVITE, not yet answered.
pub struct Incoming {
    request: IncomingRequest,
}

/// A session opened by a sent INVITE, waiting for the final response.
pub struct Calling {
    request: OutgoingRequest,
}

/// An established session.
pub struct Established {}

pub enum InviteSessionEvent {
    Terminated(Cause),
    ReInvite(IncomingRequest),
    Options(IncomingRequest),
}

#[derive(Debug)]
pub enum Cause {
    ByeReceived,
}

/// What an INVITE is sent with: the parties, the local contact and the local SDP, if any.
pub struct InvitationParams {
    pub from_uri: String,
    pub to_uri: String,
    pub local_contact: Option<String>,
    pub local_sdp: Option<SessionDescription>,
}

pub open spec fn opt_sd(o: Option<SessionDescription>) -> Option<SessionView> {
    match o {
        Some(s) => Some(s@),
        None => None,
    }
}

impl<S> InviteSession<S> {
    /// The SDP negotiation of the session.
    pub closed spec fn negotiation(&self) -> NegotiatorView {
        self.sdp_negotiator@
    }

    /// The state of the session.
    pub closed spec fn state(&self) -> S {
        self.state
    }

    fn get_sdp(body: &String) -> (r: Result<SessionDescription>)
        ensures
            match parse_sdp(body@) {
                Some(sd) => r matches Ok(x) && x@ == sd,
                None => r matches Err(Error::ErrSdpParse),
            },
    {
        let sdp = SdpParser::parse(body.as_str())?;
        Ok(sdp)
    }
}

impl InviteSession<Calling> {
    /// The INVITE of the session.
    pub closed spec fn invite(&self) -> OutgoingRequest {
        self.state.request
    }

    /// A session for an INVITE to send, which carries the local SDP where there is one (and
    /// the negotiator then holds it as the local offer).
    pub fn initiate(params: InvitationParams) -> (r: InviteSession<Calling>)
        ensures
            r.invite().method == SipMethod::Invite,
            r.invite().headers@.len() == 0,
            match params.local_sdp {
                Some(sdp) => r.invite().body matches Some(b) && b@ == sdp_text(sdp@) && r.negotiation() == (NegotiatorView {
                    local_offer: Some(sdp@),
                    state: NegotiationState::LocalOffer,
                    ..fresh_negotiation()
                }),
                None => r.invite().body is None && r.negotiation() == fresh_negotiation(),
            },
    {
        let InvitationParams { from_uri: _, to_uri: _, local_contact: _, local_sdp } = params;
        let (body, sdp_negotiator) = match local_sdp {
            Some(sdp) => {
                let encoded = sdp.encode_sdp();
                (Some(encoded), Negotiator::with_local(sdp))
            },
            None => (None, Negotiator::new()),
        };
        let request = OutgoingRequest { method: SipMethod::Invite, headers: Vec::new(), body };
        InviteSession { state: Calling { request }, sdp_negotiator }
    }

    /// The INVITE of the session.
    pub fn request(&self) -> (r: &OutgoingRequest)
        ensures
            *r == self.invite(),
    {
        &self.state.request
    }

    /// The session established by a 2xx response; its negotiation is kept.
    pub fn wait_answer(self) -> (r: InviteSession<Established>)
        ensures
            r.negotiation() == self.negotiation(),
    {
        InviteSession { state: Established {  }, sdp_negotiator: self.sdp_negotiator }
    }
}

impl InviteSession<Incoming> {
    /// The INVITE that opened the session.
    pub closed spec fn invite(&self) -> IncomingRequest {
        self.state.request
    }

    /// A session for a received request, which must be an INVITE. The body of an INVITE that
    /// has one is an early offer and must be a session description; without a body the offer
    /// is delayed.
    pub fn from_invite(request: IncomingRequest) -> (r: Result<InviteSession<Incoming>>)
        ensures
            request.method != SipMethod::Invite ==> (r matches Err(Error::Custom(m)) && m@
                == unexpected_method_text(request.method)),
            request.method == SipMethod::Invite ==> match request.body {
                None => r matches Ok(s) && s.negotiation() == fresh_negotiation() && s.invite() == request,
                Some(b) => match parse_sdp(b@) {
                    Some(sd) => r matches Ok(s) && s.negotiation() == (NegotiatorView {
                        remote_offer: Some(sd),
                        state: NegotiationState::RemoteOffer,
                        ..fresh_negotiation()
                    }) && s.invite() == request,
                    None => r matches Err(Error::ErrSdpParse),
                },
            },
    {
        if request.method != SipMethod::Invite {
            let mut m = String::from_str("unexpected method '");
            m.append(request.method.as_str());
            m.append("' expected INVITE");
            return Err(Error::Custom(m));
        }
        let sdp_negotiator = if let Some(body) = &request.body {
            // early offer
            Negotiator::with_remote(Self::get_sdp(body)?)
        } else {
            // delayed offer
            Negotiator::new()
        };
        Ok(InviteSession { state: Incoming { request }, sdp_negotiator })
    }

    /// Accepts the session with `local_sdp`: takes it as the local offer and answers the remote
    /// offer with it. Returns the established session and the SDP answer to send in the 2xx
    /// response.
    pub fn accept(self, local_sdp: SessionDescription) -> (r: Result<(InviteSession<Established>, String)>)
        requires
            self.negotiation().state == NegotiationState::RemoteOffer ==> !(answer_streams(
                local_sdp@.media,
                self.negotiation().remote_offer->0.media,
                0,
            ) is Unsupported),
        ensures
            ({
                let n = self.negotiation();
                let local = local_sdp@;
                let remote = n.remote_offer->0;
                if n.state == NegotiationState::RemoteOffer {
                    match answer_streams(local.media, remote.media, 0) {
                        AnswerOutcome::Answered(ms) => r matches Ok((s, body)) && s.negotiation() == (NegotiatorView {
                            remote_offer: n.remote_offer,
                            local_offer: Some(local),
                            answer: Some(answer_session(local, remote, ms)),
                            state: NegotiationState::Done,
                        }) && body@ == sdp_text(answer_session(local, remote, ms)),
                        _ => r matches Err(Error::ErrInvalidPayloadType),
                    }
                } else {
                    r matches Err(Error::ErrInvalidNegoState)
                }
            }),
    {
        let InviteSession { state: _, mut sdp_negotiator } = self;
        match sdp_negotiator.set_local_offer(local_sdp) {
            Ok(()) => {},
            Err(e) => {
                return Err(e);
            },
        }
        let body = match sdp_negotiator.generate_answer() {
            Ok(answer) => answer.encode_sdp(),
            Err(e) => {
                return Err(e);
            },
        };
        Ok((InviteSession { state: Established {  }, sdp_negotiator }, body))
    }
}

/// What an established session does with a request received in its dialog.
pub enum InviteSessionStep {
    /// Hand the event to the application and stop.
    ForwardAndStop(InviteSessionEvent),
    /// Answer the BYE with 200 OK, report `Terminated(ByeReceived)` and stop.
    EndOnBye(IncomingRequest),
    /// Ignore the request and go on.
    Ignore(IncomingRequest),
}

impl Established {
    /// The step for a request received in an established session: a re-INVITE is forwarded
    /// and ends the loop, a BYE ends the session, anything else is ignored.
    pub fn on_request(request: IncomingRequest) -> (r: InviteSessionStep)
        ensures
            request.method == SipMethod::Invite ==> r == InviteSessionStep::ForwardAndStop(
                InviteSessionEvent::ReInvite(request),
            ),
            request.method == SipMethod::Bye ==> r == InviteSessionStep::EndOnBye(request),
            request.method != SipMethod::Invite && request.method != SipMethod::Bye ==> r
                == InviteSessionStep::Ignore(request),
    {
        match request.method {
            SipMethod::Invite => InviteSessionStep::ForwardAndStop(InviteSessionEvent::ReInvite(request)),
            SipMethod::Bye => InviteSessionStep::EndOnBye(request),
            _ => InviteSessionStep::Ignore(request),
        }
    }
}

} // verus!
