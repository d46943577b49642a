//! A SIP session that negotiates its media with SDP offer/answer.
//!
//! Offer/answer placement handled here:
//!   1. offer in the INVITE request, answer in the 2xx response (RFC 3261);
//!   2. offer in the 2xx response, answer in the ACK request (RFC 3261).

use vstd::prelude::*;
use vstd::string::*;
use crate::encode::Encode;
use crate::error::{Error, Result};
use crate::negotiator::{
    AnswerOutcome, NegotiationState, Negotiator, NegotiatorView, answer_session, answer_streams,
};
use crate::offer::{SdpOfferParams, SdpOfferParamsView, offer_medias, offer_view};
use crate::rtp::RtpPacket;
use crate::sdp::{SessionDescription, sdp_text};
use crate::sdp_parser::{SdpParser, parse_sdp};
use crate::sip::{Header, IncomingRequest, OutgoingRequest, SipMethod};

verus! {

broadcast use vstd::string::group_string_axioms;

/// A SIP session in state `S`, with its media negotiation.
pub struct Session<S> {
    state: S,
    negotiator: Negotiator,
    media_params: Option<SdpOfferParams>,
}

/// A session opened by a received INVITE, not yet answered.
pub struct Incoming {
    request: IncomingRequest,
}

/// A session opened by a sent INVITE, waiting for the final response.
pub struct Calling {
    request: OutgoingRequest,
}

/// An established session.
pub struct Established {}

/// What happens in an established session.
pub enum SessionEvent {
    Terminated(Cause),
    ReInvite(IncomingRequest),
    Options(IncomingRequest),
    Media(MediaEvent),
}

pub enum MediaEvent {
    RtpReceived(RtpPacket),
}

#[derive(Debug, Clone, Copy)]
pub enum Cause {
    ByeReceived,
}

/// Who a session is between.
pub struct InvitationParams {
    pub from_uri: String,
    pub to_uri: String,
    pub contact: Option<String>,
}

pub open spec fn opt_params_view(o: Option<SdpOfferParams>) -> Option<SdpOfferParamsView> {
    match o {
        Some(p) => Some(p@),
        None => None,
    }
}

/// The text of the error for a request that is not an INVITE.
pub open spec fn unexpected_method_text(m: SipMethod) -> Seq<char> {
    "unexpected method '"@ + m.text() + "' expected INVITE"@
}

fn unexpected_method_message(m: SipMethod) -> (r: String)
    ensures
        r@ == unexpected_method_text(m),
{
    let mut s = String::from_str("unexpected method '");
    s.append(m.as_str());
    s.append("' expected INVITE");
    s
}

pub open spec fn fresh_negotiation() -> NegotiatorView {
    NegotiatorView { remote_offer: None, local_offer: None, answer: None, state: NegotiationState::Initial }
}

impl<S> Session<S> {
    /// The negotiation of the session.
    pub closed spec fn negotiation(&self) -> NegotiatorView {
        self.negotiator@
    }

    /// The media parameters of the session, if set.
    pub closed spec fn media(&self) -> Option<SdpOfferParamsView> {
        opt_params_view(self.media_params)
    }

    /// The state of the session.
    pub closed spec fn state(&self) -> S {
        self.state
    }

    fn parse_sdp(body: &String) -> (r: Result<SessionDescription>)
        ensures
            match parse_sdp(body@) {
                Some(sd) => r matches Ok(x) && x@ == sd,
                None => r matches Err(Error::ErrSdpParse),
            },
    {
        let sdp = SdpParser::parse(body.as_str())?;
        Ok(sdp)
    }

    /// Sets the media parameters that the session's offers are made from.
    pub fn set_media_params(&mut self, params: SdpOfferParams)
        ensures
            final(self).media() == Some(params@),
            final(self).negotiation() == old(self).negotiation(),
            final(self).state() == old(self).state(),
    {
        self.media_params = Some(params);
    }
}

impl Session<Incoming> {
    /// The INVITE that opened the session.
    pub closed spec fn invite(&self) -> IncomingRequest {
        self.state.request
    }

    /// A session for a received request, which must be an INVITE. An INVITE with a body
    /// carries an early offer: the body must be a session description, and becomes the remote
    /// offer.
    pub fn from_invite(request: IncomingRequest) -> (r: Result<Session<Incoming>>)
        ensures
            request.method != SipMethod::Invite ==> (r matches Err(Error::Custom(m)) && m@
                == unexpected_method_text(request.method)),
            request.method == SipMethod::Invite ==> match request.body {
                None => r matches Ok(s) && s.negotiation() == fresh_negotiation() && s.media()
                    is None && s.invite() == request,
                Some(b) => match parse_sdp(b@) {
                    Some(sd) => r matches Ok(s) && s.negotiation() == (NegotiatorView {
                        remote_offer: Some(sd),
                        state: NegotiationState::RemoteOffer,
                        ..fresh_negotiation()
                    }) && s.media() is None && s.invite() == request,
                    None => r matches Err(Error::ErrSdpParse),
                },
            },
    {
        if request.method != SipMethod::Invite {
            return Err(Error::Custom(unexpected_method_message(request.method)));
        }
        let mut negotiator = Negotiator::new();
        if let Some(body) = &request.body {
            // early offer
            let remote_offer = Self::parse_sdp(body)?;
            let _ = negotiator.set_remote_offer(remote_offer);
        }
        Ok(Session { state: Incoming { request }, negotiator, media_params: None })
    }

    /// Accepts the session: answers the early offer with an offer made from the media
    /// parameters, which must be set. Returns the established session and the SDP answer to
    /// send in the 2xx response.
    pub fn accept(self) -> (r: Result<(Session<Established>, String)>)
        requires
            self.media() matches Some(p) ==> self.negotiation().remote_offer is Some && (
            self.negotiation().state == NegotiationState::RemoteOffer ==> !(answer_streams(
                offer_medias(p.media_streams, p.direction),
                self.negotiation().remote_offer->0.media,
                0,
            ) is Unsupported)),
        ensures
            self.media() is None ==> (r matches Err(Error::Custom(m)) && m@
                == "media_params required to accept a early offer"@),
            self.media() matches Some(p) ==> {
                let n = self.negotiation();
                let remote = n.remote_offer->0;
                if n.state == NegotiationState::RemoteOffer {
                    match answer_streams(offer_medias(p.media_streams, p.direction), remote.media, 0) {
                        AnswerOutcome::Answered(ms) => r matches Ok((s, body)) && s.media() == Some(p)
                            && exists|id: u64, version: u64|
                            #![trigger offer_view(p, id, version)]
                            {
                                let local = offer_view(p, id, version);
                                &&& s.negotiation() == (NegotiatorView {
                                    remote_offer: Some(remote),
                                    local_offer: Some(local),
                                    answer: Some(answer_session(local, remote, ms)),
                                    state: NegotiationState::Done,
                                })
                                &&& body@ == sdp_text(answer_session(local, remote, ms))
                            },
                        _ => r matches Err(Error::ErrInvalidPayloadType),
                    }
                } else {
                    r matches Err(Error::ErrInvalidNegoState)
                }
            },
    {
        let Session { state: _, mut negotiator, media_params } = self;
        let media_params = match media_params {
            Some(p) => p,
            None => {
                return Err(Error::Custom(String::from_str("media_params required to accept a early offer")));
            },
        };
        let local = negotiator.create_offer(&media_params);
        negotiator.set_local_offer(local)?;
        let body = {
            let answer = negotiator.generate_answer()?;
            answer.encode_sdp()
        };
        Ok((Session { state: Established {  }, negotiator, media_params: Some(media_params) }, body))
    }
}

pub open spec fn header_is_allow(h: Header, methods: Seq<SipMethod>) -> bool {
    h matches Header::Allow(v) && v@ == methods
}

pub open spec fn header_is_supported(h: Header, ext: Seq<String>) -> bool {
    h matches Header::Supported(v) && v@ == ext
}

pub open spec fn header_is_sdp_content_type(h: Header) -> bool {
    h matches Header::ContentType(t) && t@ == "application/sdp"@
}

impl Session<Calling> {
    /// The INVITE of the session.
    pub closed spec fn invite(&self) -> OutgoingRequest {
        self.state.request
    }

    /// A session for an INVITE to send: the INVITE lists the allowed methods and the supported
    /// extensions where there are any, and where media parameters are given carries an offer
    /// made from them (which the negotiator holds as the local offer).
    pub fn prepare_invite(media_params: Option<SdpOfferParams>, allow: Vec<SipMethod>, supported: Vec<String>) -> (r: Session<Calling>)
        ensures
            r.invite().method == SipMethod::Invite,
            r.media() == opt_params_view(media_params),
            ({
                let h = r.invite().headers@;
                let na: int = if allow.len() > 0 { 1 } else { 0 };
                let ns: int = if supported.len() > 0 { 1 } else { 0 };
                let nc: int = if media_params is Some { 1 } else { 0 };
                &&& h.len() == na + ns + nc
                &&& allow.len() > 0 ==> header_is_allow(h[0], allow@)
                &&& supported.len() > 0 ==> header_is_supported(h[na], supported@)
                &&& media_params is Some ==> header_is_sdp_content_type(h[na + ns])
            }),
            match media_params {
                None => r.invite().body is None && r.negotiation() == fresh_negotiation(),
                Some(p) => exists|id: u64, version: u64|
                    #![trigger offer_view(p@, id, version)]
                    {
                        let local = offer_view(p@, id, version);
                        &&& r.negotiation() == (NegotiatorView {
                            local_offer: Some(local),
                            state: NegotiationState::LocalOffer,
                            ..fresh_negotiation()
                        })
                        &&& r.invite().body matches Some(b) && b@ == sdp_text(local)
                    },
            },
    {
        let mut headers: Vec<Header> = Vec::new();
        let has_allow = allow.len() > 0;
        let has_supported = supported.len() > 0;
        let ghost allow_v = allow@;
        let ghost supported_v = supported@;
        if has_allow {
            headers.push(Header::Allow(allow));
        }
        if has_supported {
            headers.push(Header::Supported(supported));
        }
        let mut negotiator = Negotiator::new();
        let mut body: Option<String> = None;
        if let Some(params) = &media_params {
            let offer = negotiator.create_offer(params);
            let sdp = match offer.encode() {
                Ok(s) => s,
                Err(_) => String::new(),
            };
            let _ = negotiator.set_local_offer(offer);
            headers.push(Header::ContentType(String::from_str("application/sdp")));
            body = Some(sdp);
        }
        let request = OutgoingRequest { method: SipMethod::Invite, headers, body };
        Session { state: Calling { request }, negotiator, media_params }
    }

    /// The INVITE of the session.
    pub fn request(&self) -> (r: &OutgoingRequest)
        ensures
            *r == self.invite(),
    {
        &self.state.request
    }

    /// Takes the 2xx response to the INVITE, with its body if it has one (RFC 3261
    /// 13.2.2.4): a body is the answer to the offer sent, or, where none was sent, an offer to
    /// answer in the ACK with an offer made from the media parameters. Returns the established
    /// session and the SDP body of the ACK, if it has one.
    pub fn receive_answer(self, body: Option<String>) -> (r: Result<(Session<Established>, Option<String>)>)
        requires
            match body {
                None => self.media() is Some,
                Some(b) => match parse_sdp(b@) {
                    None => true,
                    Some(remote) => (self.negotiation().state == NegotiationState::Initial && (
                    self.media() matches Some(p) ==> !(answer_streams(
                        offer_medias(p.media_streams, p.direction),
                        remote.media,
                        0,
                    ) is Unsupported))) || (self.negotiation().state
                        == NegotiationState::LocalOffer && self.media() is Some),
                },
            },
        ensures
            match body {
                None => r matches Ok((s, ack)) && ack is None && s.negotiation() == self.negotiation()
                    && s.media() == self.media(),
                Some(b) => match parse_sdp(b@) {
                    None => r matches Err(Error::ErrSdpParse),
                    Some(remote) => if self.negotiation().state == NegotiationState::LocalOffer {
                        r matches Ok((s, ack)) && ack is None && s.negotiation() == (NegotiatorView {
                            answer: Some(remote),
                            state: NegotiationState::Done,
                            ..self.negotiation()
                        }) && s.media() == self.media()
                    } else {
                        match self.media() {
                            None => r matches Err(Error::Custom(m)) && m@
                                == "media_params required to answer a delayed offer"@,
                            Some(p) => match answer_streams(
                                offer_medias(p.media_streams, p.direction),
                                remote.media,
                                0,
                            ) {
                                AnswerOutcome::Answered(ms) => r matches Ok((s, ack)) && s.media() == Some(
                                    p,
                                ) && exists|id: u64, version: u64|
                                    #![trigger offer_view(p, id, version)]
                                    {
                                        let local = offer_view(p, id, version);
                                        &&& s.negotiation() == (NegotiatorView {
                                            remote_offer: Some(remote),
                                            local_offer: Some(local),
                                            answer: Some(answer_session(local, remote, ms)),
                                            state: NegotiationState::Done,
                                        })
                                        &&& ack matches Some(a) && a@ == sdp_text(
                                            answer_session(local, remote, ms),
                                        )
                                    },
                                _ => r matches Err(Error::ErrInvalidPayloadType),
                            },
                        }
                    },
                },
            },
    {
        let Session { state: _, mut negotiator, media_params } = self;
        let ack_body = if let Some(body) = &body {
            let remote = Self::parse_sdp(body)?;
            match negotiator.state() {
                NegotiationState::LocalOffer => {
                    // this is the answer
                    negotiator.process_answer(remote)?;
                    None
                },
                _ => {
                    // a delayed offer, answered in the ACK
                    let params = match &media_params {
                        Some(p) => p,
                        None => {
                            return Err(
                                Error::Custom(String::from_str("media_params required to answer a delayed offer")),
                            );
                        },
                    };
                    let local = negotiator.create_offer(params);
                    negotiator.set_local_offer(local)?;
                    negotiator.set_remote_offer(remote)?;
                    let answer = negotiator.generate_answer()?;
                    Some(answer.encode_sdp())
                },
            }
        } else {
            None
        };
        Ok((Session { state: Established {  }, negotiator, media_params }, ack_body))
    }
}

/// What an established session does with a request received in its dialog.
pub enum SessionStep {
    /// Hand the event to the application and go on.
    Forward(SessionEvent),
    /// Answer the BYE with 200 OK, report `Terminated(ByeReceived)` and stop.
    EndOnBye(IncomingRequest),
    /// Ignore the request and go on.
    Ignore(IncomingRequest),
}

impl Established {
    /// The step for a request received in an established session: a re-INVITE is forwarded,
    /// a BYE ends the session, anything else is ignored.
    pub fn on_request(request: IncomingRequest) -> (r: SessionStep)
        ensures
            request.method == SipMethod::Invite ==> r == SessionStep::Forward(SessionEvent::ReInvite(request)),
            request.method == SipMethod::Bye ==> r == SessionStep::EndOnBye(request),
            request.method != SipMethod::Invite && request.method != SipMethod::Bye ==> r
                == SessionStep::Ignore(request),
    {
        match request.method {
            SipMethod::Invite => SessionStep::Forward(SessionEvent::ReInvite(request)),
            SipMethod::Bye => SessionStep::EndOnBye(request),
            _ => SessionStep::Ignore(request),
        }
    }
}

} // verus!
