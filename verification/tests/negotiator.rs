use rssip::codec::Codec;
use rssip::encode::Encode;
use rssip::negotiator::{NegotiationState, Negotiator};
use rssip::net::IpAddr;
use rssip::offer::{SdpMediaStream, SdpOfferParams};
use rssip::sdp::Direction;
use rssip::sdp_parser::SdpParser;

#[test]
fn test_simple_offer_answer_exchange() {
    let offer = [
        "v=0\r\n",
        "o=Tesla 2890844526 2890844526 IN IP4 lab.high-voltage.org\r\n",
        "s=-\r\n",
        "c=IN IP4 100.101.102.103\r\n",
        "t=0 0\r\n",
        "m=audio 49170 RTP/AVP 0 8\r\n",
        "a=rtpmap:0 PCMU/8000\r\n",
        "a=rtpmap:8 PCMA/8000\r\n",
    ]
    .concat();

    let answer = [
        "v=0\r\n",
        "o=Marconi 2890844526 2890844526 IN IP4 tower.radio.org\r\n",
        "s=-\r\n",
        "c=IN IP4 200.201.202.203\r\n",
        "t=0 0\r\n",
        "m=audio 60000 RTP/AVP 8\r\n",
        "a=rtpmap:8 PCMA/8000\r\n",
    ]
    .concat();

    let remote_offer = SdpParser::parse(&offer).unwrap();
    let local_sdp = SdpParser::parse(&answer).unwrap();

    let mut nego = Negotiator::with_remote(remote_offer);

    nego.set_local_offer(local_sdp).unwrap();

    let _answer = nego.generate_answer().unwrap();
}

#[test]
fn test_generate_offer() {
    let mut negotiator = Negotiator::new();

    let audio = SdpMediaStream::audio(34391).with_codecs(vec![
        Codec::ulaw(),
        Codec::alaw(),
        Codec::opus(),
        Codec::telephone_event(),
    ]);

    // 192.168.178.54
    let offer = SdpOfferParams::new(IpAddr::V4([192, 168, 178, 54]), Direction::SendRecv)
        .add_media_stream(audio);

    let offer = negotiator.generate_offer(offer);

    println!("{}", offer.encode().unwrap());
}

#[test]
fn answer_of_simple_exchange_keeps_common_format() {
    let offer = "v=0\r\no=Tesla 2890844526 2890844526 IN IP4 lab.high-voltage.org\r\ns=-\r\nc=IN IP4 100.101.102.103\r\nt=0 0\r\nm=audio 49170 RTP/AVP 0 8\r\na=rtpmap:0 PCMU/8000\r\na=rtpmap:8 PCMA/8000\r\n";
    let answer = "v=0\r\no=Marconi 2890844526 2890844526 IN IP4 tower.radio.org\r\ns=-\r\nc=IN IP4 200.201.202.203\r\nt=0 0\r\nm=audio 60000 RTP/AVP 8\r\na=rtpmap:8 PCMA/8000\r\n";
    let mut nego = Negotiator::with_remote(SdpParser::parse(offer).unwrap());
    nego.set_local_offer(SdpParser::parse(answer).unwrap()).unwrap();
    let text = nego.generate_answer().unwrap().encode_sdp();
    assert_eq!(text, answer);
    assert_eq!(nego.state(), NegotiationState::Done);
}

fn offer_text() -> String {
    [
        "v=0\r\n",
        "o=Tesla 2890844526 2890844526 IN IP4 lab.high-voltage.org\r\n",
        "s=-\r\n",
        "c=IN IP4 100.101.102.103\r\n",
        "t=0 0\r\n",
        "m=audio 49170 RTP/AVP 0 8\r\n",
        "a=rtpmap:0 PCMU/8000\r\n",
        "a=rtpmap:8 PCMA/8000\r\n",
    ]
    .concat()
}

fn local_text(formats: &str, direction: Option<&str>) -> String {
    let mut s = [
        "v=0\r\n",
        "o=Marconi 2890844526 2890844526 IN IP4 tower.radio.org\r\n",
        "s=-\r\n",
        "c=IN IP4 200.201.202.203\r\n",
        "t=0 0\r\n",
    ]
    .concat();
    s.push_str(&format!("m=audio 60000 RTP/AVP {}\r\n", formats));
    if let Some(d) = direction {
        s.push_str(&format!("a={}\r\n", d));
    }
    s
}

#[test]
fn generated_offer_has_codecs_and_closing_attributes() {
    let mut negotiator = Negotiator::new();
    let audio = SdpMediaStream::audio(34391).with_codecs(vec![
        Codec::ulaw(),
        Codec::alaw(),
        Codec::opus(),
        Codec::telephone_event(),
    ]);
    let params = SdpOfferParams::new(IpAddr::V4([192, 168, 178, 54]), Direction::SendRecv).add_media_stream(audio);
    let text = negotiator.generate_offer(params).encode_sdp();
    let lines: Vec<&str> = text.split("\r\n").collect();
    assert_eq!(lines[0], "v=0");
    assert!(lines[1].starts_with("o=- "));
    assert!(lines[1].ends_with(" IN IP4 192.168.178.54"));
    assert_eq!(
        &lines[2..],
        &[
            "s=-",
            "c=IN IP4 192.168.178.54",
            "t=0 0",
            "m=audio 34391 RTP/AVP 0 8 96 101",
            "a=rtpmap:0 PCMU/8000",
            "a=rtpmap:8 PCMA/8000",
            "a=rtpmap:96 opus/48000/2",
            "a=rtpmap:101 telephone-event/8000",
            "a=fmtp:101 0-16",
            "a=ptime:20",
            "a=maxptime:150",
            "a=sendrecv",
            "",
        ]
    );
    assert_eq!(negotiator.state(), NegotiationState::LocalOffer);
}

#[test]
fn other_codec_described_by_generic_rtpmap() {
    let mut negotiator = Negotiator::new();
    let video = SdpMediaStream::video(5004).with_codecs(vec![Codec::new("H264", 90000, 97, 0, None)]);
    let params = SdpOfferParams::new(IpAddr::V4([10, 0, 0, 1]), Direction::RecvOnly).add_media_stream(video);
    let text = negotiator.generate_offer(params).encode_sdp();
    assert!(text.contains("m=video 5004 RTP/AVP 97\r\na=rtpmap:97/H264/90000/0/\r\na=ptime:20\r\na=maxptime:150\r\na=recvonly\r\n"));
}

#[test]
fn offer_without_streams_has_no_media() {
    let mut negotiator = Negotiator::new();
    let params = SdpOfferParams::new(IpAddr::V6([0, 0, 0, 0, 0, 0, 0, 1]), Direction::Inactive);
    let text = negotiator.generate_offer(params).encode_sdp();
    assert!(text.contains("c=IN IP6 ::1\r\nt=0 0\r\n"));
    assert!(!text.contains("m="));
}

#[test]
fn generating_offer_twice_keeps_first() {
    let mut negotiator = Negotiator::new();
    let p1 = SdpOfferParams::new(IpAddr::V4([10, 0, 0, 1]), Direction::SendRecv)
        .add_media_stream(SdpMediaStream::audio(4000).with_codecs(vec![Codec::ulaw()]));
    let p2 = SdpOfferParams::new(IpAddr::V4([10, 0, 0, 2]), Direction::SendOnly);
    let first = negotiator.generate_offer(p1).encode_sdp();
    let second = negotiator.generate_offer(p2).encode_sdp();
    assert_eq!(first, second);
}

#[test]
fn offers_in_either_order_reach_ready() {
    let offer = offer_text();
    let local = local_text("8", None);
    let mut a = Negotiator::with_remote(SdpParser::parse(&offer).unwrap());
    a.set_local_offer(SdpParser::parse(&local).unwrap()).unwrap();
    let mut b = Negotiator::with_local(SdpParser::parse(&local).unwrap());
    b.set_remote_offer(SdpParser::parse(&offer).unwrap()).unwrap();
    assert_eq!(a.state(), NegotiationState::Ready);
    assert_eq!(b.state(), NegotiationState::Ready);
    let ta = a.generate_answer().unwrap().encode_sdp();
    let tb = b.generate_answer().unwrap().encode_sdp();
    assert_eq!(ta, tb);
}

#[test]
fn offer_in_wrong_state_is_refused() {
    let offer = offer_text();
    let mut n = Negotiator::with_remote(SdpParser::parse(&offer).unwrap());
    let r = n.set_remote_offer(SdpParser::parse(&offer).unwrap());
    assert!(matches!(r, Err(rssip::error::Error::ErrInvalidNegoState)));
    assert_eq!(n.state(), NegotiationState::RemoteOffer);
    let mut m = Negotiator::new();
    let r = m.generate_answer();
    assert!(matches!(r, Err(rssip::error::Error::ErrInvalidNegoState)));
}

#[test]
fn answer_is_generated_once() {
    let mut n = Negotiator::with_remote(SdpParser::parse(&offer_text()).unwrap());
    n.set_local_offer(SdpParser::parse(&local_text("8", None)).unwrap()).unwrap();
    assert!(n.generate_answer().is_ok());
    assert!(n.answer().is_some());
    assert!(matches!(n.generate_answer(), Err(rssip::error::Error::ErrInvalidNegoState)));
    assert!(matches!(
        n.set_local_offer(SdpParser::parse(&local_text("8", None)).unwrap()),
        Err(rssip::error::Error::ErrInvalidNegoState)
    ));
}

#[test]
fn answer_direction_to_sendonly_offer_is_recvonly() {
    let offer = offer_text() + "a=sendonly\r\n";
    let mut n = Negotiator::with_remote(SdpParser::parse(&offer).unwrap());
    n.set_local_offer(SdpParser::parse(&local_text("0 8", Some("sendrecv"))).unwrap()).unwrap();
    let text = n.generate_answer().unwrap().encode_sdp();
    assert!(text.ends_with("m=audio 60000 RTP/AVP 0 8\r\na=recvonly\r\n"));
}

#[test]
fn answer_direction_to_recvonly_offer_from_recvonly_is_inactive() {
    let offer = offer_text() + "a=recvonly\r\n";
    let mut n = Negotiator::with_remote(SdpParser::parse(&offer).unwrap());
    n.set_local_offer(SdpParser::parse(&local_text("0", Some("recvonly"))).unwrap()).unwrap();
    let text = n.generate_answer().unwrap().encode_sdp();
    assert!(text.ends_with("a=inactive\r\n"));
}

#[test]
fn answer_takes_offer_timing() {
    let offer = offer_text().replace("t=0 0", "t=3034423619 3042462419");
    let mut n = Negotiator::with_remote(SdpParser::parse(&offer).unwrap());
    n.set_local_offer(SdpParser::parse(&local_text("8", None)).unwrap()).unwrap();
    let text = n.generate_answer().unwrap().encode_sdp();
    assert!(text.contains("t=3034423619 3042462419\r\n"));
    assert!(text.contains("o=Marconi"));
}

#[test]
fn zero_port_stream_is_not_answered() {
    let offer = offer_text().replace("49170", "0");
    let mut n = Negotiator::with_remote(SdpParser::parse(&offer).unwrap());
    n.set_local_offer(SdpParser::parse(&local_text("8", None)).unwrap()).unwrap();
    let text = n.generate_answer().unwrap().encode_sdp();
    assert!(!text.contains("m="));
}

#[test]
fn non_numeric_format_is_refused() {
    let mut n = Negotiator::with_remote(SdpParser::parse(&offer_text()).unwrap());
    n.set_local_offer(SdpParser::parse(&local_text("x", None)).unwrap()).unwrap();
    assert!(matches!(n.generate_answer(), Err(rssip::error::Error::ErrInvalidPayloadType)));
    assert_eq!(n.state(), NegotiationState::Ready);
}

#[test]
fn process_answer_completes_local_offer() {
    let mut n = Negotiator::with_local(SdpParser::parse(&local_text("8", None)).unwrap());
    n.process_answer(SdpParser::parse(&offer_text()).unwrap()).unwrap();
    assert_eq!(n.state(), NegotiationState::Done);
    assert_eq!(n.answer().unwrap().encode_sdp(), offer_text());
    let mut m = Negotiator::new();
    assert!(matches!(
        m.process_answer(SdpParser::parse(&offer_text()).unwrap()),
        Err(rssip::error::Error::ErrInvalidNegoState)
    ));
}
