use rssip::error::Error;
use rssip::net::IpAddr;
use rssip::sdp::{
    AddrType, Attribute, Bandwidth, ConnectionInformation, MediaDescription, MediaType, NetType, Origin,
    SdpTransport, SessionDescription, TimeActive, TimeDescription,
};
use rssip::sdp_parser::SdpParser;
use rssip::text::{parse_u8, u64_to_string};
use rssip::util::{new_session_id, new_session_version, session_version_of};

const FULL: &str = "v=0\r\no=jdoe 2890844526 2890842807 IN IP4 10.47.16.5\r\ns=SDP Seminar\r\ni=A Seminar on the session description protocol\r\nu=http://www.example.com/seminars/sdp.pdf\r\ne=j.doe@example.com (Jane Doe)\r\np=+1 617 555-6011\r\nc=IN IP4 224.2.17.12/127\r\nb=AS:128\r\nt=2873397496 2873404696\r\nr=604800 3600 0 90000\r\na=recvonly\r\nm=audio 49170 RTP/AVP 0\r\nm=video 51372/2 RTP/AVP 99\r\ni=camera\r\nc=IN IP6 ff15::101\r\nb=CT:256\r\na=rtpmap:99 h263-1998/90000\r\n";

#[test]
fn full_description_reads_and_writes_back() {
    let sd = SdpParser::parse(FULL).unwrap();
    assert_eq!(sd.origin.user, "jdoe");
    assert_eq!(sd.origin.session_id, 2890844526);
    assert_eq!(sd.origin.session_version, 2890842807);
    assert_eq!(sd.session_name, "SDP Seminar");
    assert_eq!(sd.phone_number.as_deref(), Some("+1 617 555-6011"));
    assert_eq!(sd.connection_information.as_ref().unwrap().conection_address, "224.2.17.12/127");
    assert_eq!(sd.bandwidth_information[0].bwtype, "AS");
    assert_eq!(sd.bandwidth_information[0].bandwidth, 128);
    assert_eq!(sd.time.len(), 1);
    assert_eq!(sd.time[0].time_active.start_time, 2873397496);
    assert_eq!(sd.time[0].repeat_times, vec!["604800 3600 0 90000".to_string()]);
    assert_eq!(sd.attributes[0].name, "recvonly");
    assert!(sd.attributes[0].value.is_none());
    assert_eq!(sd.media.len(), 2);
    assert_eq!(sd.media[1].media_type, MediaType::Video);
    assert_eq!(sd.media[1].port, 51372);
    assert_eq!(sd.media[1].number_of_ports, Some(2));
    assert_eq!(sd.media[1].title.as_deref(), Some("camera"));
    assert_eq!(sd.media[1].attributes[0].name, "rtpmap");
    assert_eq!(sd.media[1].attributes[0].value.as_deref(), Some("99 h263-1998/90000"));
    // reading then writing gives the text back
    assert_eq!(sd.encode_sdp(), FULL);
}

#[test]
fn written_description_reads_back() {
    let sd = SessionDescription {
        origin: Origin {
            user: "alice".to_string(),
            session_id: 7,
            session_version: 0,
            nettype: NetType::IN,
            addrtype: AddrType::IP6,
            unicast_address: "2001:db8::1".to_string(),
        },
        session_name: "call".to_string(),
        session_information: None,
        uri: None,
        email_address: None,
        phone_number: None,
        connection_information: Some(ConnectionInformation {
            nettype: NetType::IN,
            addrtype: AddrType::IP6,
            conection_address: "2001:db8::1".to_string(),
        }),
        bandwidth_information: vec![Bandwidth { bwtype: "TIAS".to_string(), bandwidth: 64000 }],
        time: vec![TimeDescription { time_active: TimeActive { start_time: 0, stop_time: 0 }, repeat_times: vec![] }],
        attributes: vec![Attribute { name: "tool".to_string(), value: Some("x:y".to_string()) }],
        media: vec![MediaDescription {
            media_type: MediaType::Application,
            port: 9,
            number_of_ports: None,
            proto: SdpTransport::Udp,
            media_formats: vec!["wb".to_string()],
            title: None,
            connection_information: None,
            bandwidth_information: vec![],
            attributes: vec![],
        }],
    };
    let text = sd.encode_sdp();
    assert_eq!(
        text,
        "v=0\r\no=alice 7 0 IN IP6 2001:db8::1\r\ns=call\r\nc=IN IP6 2001:db8::1\r\nb=TIAS:64000\r\nt=0 0\r\na=tool:x:y\r\nm=application 9 udp wb\r\n"
    );
    let back = SdpParser::parse(&text).unwrap();
    assert_eq!(back.encode_sdp(), text);
    assert_eq!(back.attributes[0].name, "tool");
    assert_eq!(back.attributes[0].value.as_deref(), Some("x:y"));
    assert_eq!(back.media[0].proto, SdpTransport::Udp);
}

#[test]
fn malformed_text_is_refused() {
    let bad = [
        "",
        "v=0\r\n",
        "v=1\r\no=a 1 1 IN IP4 h\r\ns=-\r\nt=0 0\r\n",
        "v=0\no=a 1 1 IN IP4 h\ns=-\nt=0 0\n",
        "v=0\r\no=a 01 1 IN IP4 h\r\ns=-\r\nt=0 0\r\n",
        "v=0\r\no=a 1 1 IN IP5 h\r\ns=-\r\nt=0 0\r\n",
        "v=0\r\no=a 1 1 IN IP4 h\r\ns=-\r\n",
        "v=0\r\no=a 1 1 IN IP4 h\r\ns=-\r\nt=0 0\r\nm=audio 70000 RTP/AVP 0\r\n",
        "v=0\r\no=a 1 1 IN IP4 h\r\ns=-\r\nt=0 0\r\nz=0 0\r\n",
        "v=0\r\no=a 1 1 IN IP4 h\r\ns=-\r\nt=0 0",
    ];
    for b in bad.iter() {
        assert!(matches!(SdpParser::parse(b), Err(Error::ErrSdpParse)), "{:?}", b);
    }
    assert!(SdpParser::parse("v=0\r\no=a 1 1 IN IP4 h\r\ns=-\r\nt=0 0\r\n").is_ok());
}

#[test]
fn default_description_has_no_timing() {
    let sd = SessionDescription::default();
    assert_eq!(sd.encode_sdp(), "v=0\r\no= 0 0 IN IP4 \r\ns=\r\n");
    assert!(SdpParser::parse(&sd.encode_sdp()).is_err());
}

#[test]
fn ip_text_forms() {
    assert_eq!(IpAddr::V4([192, 168, 178, 54]).to_string(), "192.168.178.54");
    assert_eq!(IpAddr::V4([0, 0, 0, 0]).to_string(), "0.0.0.0");
    assert_eq!(IpAddr::V6([0, 0, 0, 0, 0, 0, 0, 1]).to_string(), "::1");
    assert_eq!(IpAddr::V6([0, 0, 0, 0, 0, 0, 0, 0]).to_string(), "::");
    assert_eq!(IpAddr::V6([0x2001, 0xdb8, 0, 0, 0, 0, 0, 1]).to_string(), "2001:db8::1");
    assert_eq!(IpAddr::V6([0x2001, 0xdb8, 0, 1, 0, 0, 0, 1]).to_string(), "2001:db8:0:1::1");
    assert_eq!(IpAddr::V6([1, 0, 0, 2, 0, 0, 0, 3]).to_string(), "1:0:0:2::3");
    assert_eq!(IpAddr::V6([1, 0, 2, 3, 4, 5, 6, 7]).to_string(), "1:0:2:3:4:5:6:7");
    assert_eq!(IpAddr::V6([1, 0, 0, 0, 0, 0, 0, 0]).to_string(), "1::");
    assert_eq!(IpAddr::V6([0, 0, 0, 0, 0, 0xffff, 0x0102, 0x0304]).to_string(), "::ffff:1.2.3.4");
    assert_eq!(IpAddr::V6([0xfe80, 0, 0, 0, 0xabcd, 0xef, 0x10, 0xffff]).to_string(), "fe80::abcd:ef:10:ffff");
    assert!(IpAddr::V4([1, 2, 3, 4]).is_ipv4());
    assert!(!IpAddr::V6([0; 8]).is_ipv4());
}

#[test]
fn payload_type_numbers() {
    assert_eq!(parse_u8("0"), Some(0));
    assert_eq!(parse_u8("+7"), Some(7));
    assert_eq!(parse_u8("007"), Some(7));
    assert_eq!(parse_u8("255"), Some(255));
    assert_eq!(parse_u8("256"), None);
    assert_eq!(parse_u8("+"), None);
    assert_eq!(parse_u8(""), None);
    assert_eq!(parse_u8("-1"), None);
    assert_eq!(parse_u8("9a"), None);
    for s in ["0", "+7", "007", "255", "256", "+", "", "-1", "9a", "-0"] {
        assert_eq!(parse_u8(s), s.parse::<u8>().ok(), "{:?}", s);
    }
}

#[test]
fn decimal_text() {
    assert_eq!(u64_to_string(0), "0");
    assert_eq!(u64_to_string(10), "10");
    assert_eq!(u64_to_string(u64::MAX), "18446744073709551615");
}

#[test]
fn session_numbers() {
    assert!(new_session_version() < 1_000_000_000);
    let a = new_session_id();
    let b = new_session_id();
    let c = new_session_id();
    assert!(a != b || b != c);
}

#[test]
fn session_version_from_clock() {
    assert_eq!(session_version_of(Some(123_456_789)), 123_456_789);
    assert_eq!(session_version_of(Some(0)), 0);
    assert_eq!(session_version_of(None), 0);
}
