use rssip::codec::Codec;
use rssip::error::Error;
use rssip::invite_session::{InvitationParams, InviteSession, InviteSessionStep};
use rssip::negotiator::NegotiationState;
use rssip::net::IpAddr;
use rssip::offer::{SdpMediaStream, SdpOfferParams};
use rssip::sdp::{Direction, SessionDescription};
use rssip::sdp_parser::SdpParser;
use rssip::session::{Established, Session, SessionEvent, SessionStep};
use rssip::sip::{Header, IncomingRequest, SipMethod};

const OFFER: &str = "v=0\r\no=Tesla 2890844526 2890844526 IN IP4 lab.high-voltage.org\r\ns=-\r\nc=IN IP4 100.101.102.103\r\nt=0 0\r\nm=audio 49170 RTP/AVP 0 8\r\na=rtpmap:0 PCMU/8000\r\na=rtpmap:8 PCMA/8000\r\n";
const LOCAL: &str = "v=0\r\no=Marconi 2890844526 2890844526 IN IP4 tower.radio.org\r\ns=-\r\nc=IN IP4 200.201.202.203\r\nt=0 0\r\nm=audio 60000 RTP/AVP 8\r\na=rtpmap:8 PCMA/8000\r\n";

fn media() -> SdpOfferParams {
    SdpOfferParams::new(IpAddr::V4([127, 0, 0, 1]), Direction::SendRecv)
        .add_media_stream(SdpMediaStream::audio(17258).with_codecs(vec![Codec::ulaw(), Codec::alaw()]))
}

#[test]
fn test_server_session_without_sdp() {
    let request = IncomingRequest { method: SipMethod::Invite, body: None };
    let _session = Session::from_invite(request).expect("Failed to create session from invite");
}

#[test]
fn test_client_session_send_invite_without_sdp() {
    let session = Session::prepare_invite(None, vec![], vec![]);
    assert_eq!(session.request().method, SipMethod::Invite);
    assert!(session.request().body.is_none());
    assert!(session.request().headers.is_empty());
}

#[test]
fn test_session_with_late_offer() {
    let request = IncomingRequest { method: SipMethod::Invite, body: None };
    let session = InviteSession::from_invite(request);
    assert!(session.is_ok());
}

#[test]
fn test_client_session() {
    let inv_params = InvitationParams {
        from_uri: "sip:localhost:8089".to_string(),
        to_uri: "sip:sip_homologa2.55pbx.com:5060".to_string(),
        local_contact: None,
        local_sdp: Some(SessionDescription::default()),
    };
    let session = InviteSession::initiate(inv_params);
    assert_eq!(session.request().body.as_deref(), Some("v=0\r\no= 0 0 IN IP4 \r\ns=\r\n"));
    let _session = session.wait_answer();
}

#[test]
fn request_other_than_invite_is_refused() {
    let request = IncomingRequest { method: SipMethod::Bye, body: None };
    match Session::from_invite(request) {
        Err(Error::Custom(m)) => assert_eq!(m, "unexpected method 'BYE' expected INVITE"),
        _ => panic!("expected an error"),
    }
    let request = IncomingRequest { method: SipMethod::Options, body: None };
    match InviteSession::from_invite(request) {
        Err(Error::Custom(m)) => assert_eq!(m, "unexpected method 'OPTIONS' expected INVITE"),
        _ => panic!("expected an error"),
    }
}

#[test]
fn invite_with_bad_body_is_refused() {
    let request = IncomingRequest { method: SipMethod::Invite, body: Some("hello".to_string()) };
    assert!(matches!(Session::from_invite(request), Err(Error::ErrSdpParse)));
}

#[test]
fn early_offer_is_answered_on_accept() {
    let request = IncomingRequest { method: SipMethod::Invite, body: Some(OFFER.to_string()) };
    let mut session = Session::from_invite(request).unwrap();
    session.set_media_params(media());
    let (_established, answer) = session.accept().unwrap();
    let answer = SdpParser::parse(&answer).unwrap();
    assert_eq!(answer.media.len(), 1);
    assert_eq!(answer.media[0].media_formats, vec!["0".to_string(), "8".to_string()]);
    assert_eq!(answer.media[0].attributes.last().unwrap().name, "sendrecv");
}

#[test]
fn accept_without_media_params_is_refused() {
    let request = IncomingRequest { method: SipMethod::Invite, body: Some(OFFER.to_string()) };
    let session = Session::from_invite(request).unwrap();
    match session.accept() {
        Err(Error::Custom(m)) => assert_eq!(m, "media_params required to accept a early offer"),
        _ => panic!("expected an error"),
    }
}

#[test]
fn invite_carries_headers_and_offer() {
    let session = Session::prepare_invite(Some(media()), vec![SipMethod::Invite, SipMethod::Ack], vec!["timer".to_string()]);
    let req = session.request();
    assert_eq!(req.headers.len(), 3);
    assert!(matches!(&req.headers[0], Header::Allow(m) if m.len() == 2));
    assert!(matches!(&req.headers[1], Header::Supported(s) if s[0] == "timer"));
    assert!(matches!(&req.headers[2], Header::ContentType(t) if t == "application/sdp"));
    let offer = SdpParser::parse(req.body.as_ref().unwrap()).unwrap();
    assert_eq!(offer.media[0].port, 17258);
}

#[test]
fn answer_to_sent_offer_completes_negotiation() {
    let session = Session::prepare_invite(Some(media()), vec![], vec!["100rel".to_string()]);
    assert_eq!(session.request().headers.len(), 2);
    let (_s, ack) = session.receive_answer(Some(LOCAL.to_string())).unwrap();
    assert!(ack.is_none());
}

#[test]
fn delayed_offer_is_answered_in_ack() {
    let mut session = Session::prepare_invite(None, vec![], vec![]);
    session.set_media_params(media());
    let (_s, ack) = session.receive_answer(Some(OFFER.to_string())).unwrap();
    let ack = SdpParser::parse(&ack.unwrap()).unwrap();
    assert_eq!(ack.media[0].media_formats, vec!["0".to_string(), "8".to_string()]);
    let session = Session::prepare_invite(None, vec![], vec![]);
    match session.receive_answer(Some(OFFER.to_string())) {
        Err(Error::Custom(m)) => assert_eq!(m, "media_params required to answer a delayed offer"),
        _ => panic!("expected an error"),
    }
}

#[test]
fn invite_session_accepts_with_local_sdp() {
    let request = IncomingRequest { method: SipMethod::Invite, body: Some(OFFER.to_string()) };
    let session = InviteSession::from_invite(request).unwrap();
    let (_s, answer) = session.accept(SdpParser::parse(LOCAL).unwrap()).unwrap();
    assert_eq!(answer, LOCAL);
    let request = IncomingRequest { method: SipMethod::Invite, body: None };
    let session = InviteSession::from_invite(request).unwrap();
    assert!(matches!(session.accept(SdpParser::parse(LOCAL).unwrap()), Err(Error::ErrInvalidNegoState)));
}

#[test]
fn established_session_steps() {
    let invite = IncomingRequest { method: SipMethod::Invite, body: None };
    assert!(matches!(Established::on_request(invite), SessionStep::Forward(SessionEvent::ReInvite(_))));
    let bye = IncomingRequest { method: SipMethod::Bye, body: None };
    assert!(matches!(Established::on_request(bye), SessionStep::EndOnBye(_)));
    let info = IncomingRequest { method: SipMethod::Info, body: None };
    assert!(matches!(Established::on_request(info), SessionStep::Ignore(_)));
    let invite = IncomingRequest { method: SipMethod::Invite, body: None };
    assert!(matches!(
        rssip::invite_session::Established::on_request(invite),
        InviteSessionStep::ForwardAndStop(_)
    ));
    let _ = NegotiationState::Done;
}
