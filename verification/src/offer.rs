//! Media streams and parameters for generating an SDP offer (RFC 3264 section 5).

use vstd::prelude::*;
use vstd::string::*;
use crate::codec::{Codec, CodecView};
use crate::negotiator::{direction_of, lemma_direction_names};
use crate::net::{IpAddr, ip_text};
use crate::sdp::{
    AddrType, Attribute, AttributeView, ConnectionInformation, ConnectionView, Direction,
    MediaDescription, MediaType, MediaView, NetType, Origin, OriginView, SdpTransport,
    SessionDescription, SessionView, TimeActive, TimeDescription, TimeView, attributes_view,
    medias_view,
};
use crate::text::{dec_str, push_char, push_dec, str_is, u64_to_string};

verus! {

broadcast use vstd::string::group_string_axioms;

/// One media stream that an offer proposes: its transport, media type, codecs and port.
pub struct SdpMediaStream {
    transport: SdpTransport,
    media_type: MediaType,
    codecs: Vec<Codec>,
    port: u16,
}

pub struct SdpMediaStreamView {
    pub transport: SdpTransport,
    pub media_type: MediaType,
    pub codecs: Seq<CodecView>,
    pub port: u16,
}

pub open spec fn codecs_view(v: Seq<Codec>) -> Seq<CodecView> {
    v.map_values(|c: Codec| c@)
}

impl View for SdpMediaStream {
    type V = SdpMediaStreamView;

    closed spec fn view(&self) -> SdpMediaStreamView {
        SdpMediaStreamView {
            transport: self.transport,
            media_type: self.media_type,
            codecs: codecs_view(self.codecs@),
            port: self.port,
        }
    }
}

fn clone_codecs(v: &Vec<Codec>) -> (r: Vec<Codec>)
    ensures
        codecs_view(r@) == codecs_view(v@),
{
    let mut out: Vec<Codec> = Vec::new();
    let mut i: usize = 0;
    while i < v.len()
        invariant
            i <= v.len(),
            codecs_view(out@) == codecs_view(v@.take(i as int)),
        decreases v.len() - i,
    {
        let c = v[i].clone();
        let ghost before = out@;
        out.push(c);
        assert(codecs_view(out@) =~= codecs_view(before).push(c@));
        assert(v@.take(i + 1) =~= v@.take(i as int).push(v@[i as int]));
        assert(codecs_view(out@) =~= codecs_view(v@.take(i + 1)));
        i = i + 1;
    }
    assert(v@.take(v.len() as int) =~= v@);
    out
}

impl Clone for SdpMediaStream {
    fn clone(&self) -> (r: Self)
        ensures
            r@ == self@,
    {
        SdpMediaStream {
            transport: self.transport,
            media_type: self.media_type,
            codecs: clone_codecs(&self.codecs),
            port: self.port,
        }
    }
}

impl SdpMediaStream {
    /// An RTP/AVP audio stream on `port`, with no codecs yet.
    pub fn audio(port: u16) -> (r: Self)
        ensures
            r@ == (SdpMediaStreamView {
                transport: SdpTransport::RTPAVP,
                media_type: MediaType::Audio,
                codecs: Seq::empty(),
                port: port,
            }),
    {
        let r = Self { transport: SdpTransport::RTPAVP, media_type: MediaType::Audio, codecs: Vec::new(), port };
        assert(codecs_view(r.codecs@) =~= Seq::<CodecView>::empty());
        r
    }

    /// An RTP/AVP video stream on `port`, with no codecs yet.
    pub fn video(port: u16) -> (r: Self)
        ensures
            r@ == (SdpMediaStreamView {
                transport: SdpTransport::RTPAVP,
                media_type: MediaType::Video,
                codecs: Seq::empty(),
                port: port,
            }),
    {
        let r = Self { transport: SdpTransport::RTPAVP, media_type: MediaType::Video, codecs: Vec::new(), port };
        assert(codecs_view(r.codecs@) =~= Seq::<CodecView>::empty());
        r
    }

    /// The stream with `codecs` in place of its codecs.
    pub fn with_codecs(self, codecs: Vec<Codec>) -> (r: Self)
        ensures
            r@ == (SdpMediaStreamView { codecs: codecs_view(codecs@), ..self@ }),
    {
        let mut s = self;
        s.codecs = codecs;
        s
    }
}

/// What an offer is generated from: the direction of its media, the address of the offerer
/// and the media streams.
pub struct SdpOfferParams {
    direction: Direction,
    origin_ip: IpAddr,
    media_streams: Vec<SdpMediaStream>,
}

pub struct SdpOfferParamsView {
    pub direction: Direction,
    pub origin_ip: IpAddr,
    pub media_streams: Seq<SdpMediaStreamView>,
}

pub open spec fn streams_view(v: Seq<SdpMediaStream>) -> Seq<SdpMediaStreamView> {
    v.map_values(|s: SdpMediaStream| s@)
}

impl View for SdpOfferParams {
    type V = SdpOfferParamsView;

    closed spec fn view(&self) -> SdpOfferParamsView {
        SdpOfferParamsView {
            direction: self.direction,
            origin_ip: self.origin_ip,
            media_streams: streams_view(self.media_streams@),
        }
    }
}

impl Clone for SdpOfferParams {
    fn clone(&self) -> (r: Self)
        ensures
            r@ == self@,
    {
        let mut streams: Vec<SdpMediaStream> = Vec::new();
        let mut i: usize = 0;
        while i < self.media_streams.len()
            invariant
                i <= self.media_streams.len(),
                streams_view(streams@) == streams_view(self.media_streams@.take(i as int)),
            decreases self.media_streams.len() - i,
        {
            let c = self.media_streams[i].clone();
            let ghost before = streams@;
            streams.push(c);
            assert(streams_view(streams@) =~= streams_view(before).push(c@));
            assert(self.media_streams@.take(i + 1) =~= self.media_streams@.take(i as int).push(
                self.media_streams@[i as int],
            ));
            assert(streams_view(streams@) =~= streams_view(self.media_streams@.take(i + 1)));
            i = i + 1;
        }
        assert(self.media_streams@.take(self.media_streams.len() as int) =~= self.media_streams@);
        SdpOfferParams { direction: self.direction, origin_ip: self.origin_ip, media_streams: streams }
    }
}

impl SdpOfferParams {
    pub fn new(origin_ip: IpAddr, direction: Direction) -> (r: Self)
        ensures
            r@ == (SdpOfferParamsView { direction: direction, origin_ip: origin_ip, media_streams: Seq::empty() }),
    {
        let r = Self { direction, origin_ip, media_streams: Vec::new() };
        assert(streams_view(r.media_streams@) =~= Seq::<SdpMediaStreamView>::empty());
        r
    }

    /// The parameters with `stream` added after the streams already there.
    pub fn add_media_stream(self, stream: SdpMediaStream) -> (r: Self)
        ensures
            r@ == (SdpOfferParamsView { media_streams: self@.media_streams.push(stream@), ..self@ }),
    {
        let mut s = self;
        let ghost before = s.media_streams@;
        s.media_streams.push(stream);
        assert(streams_view(s.media_streams@) =~= streams_view(before).push(stream@));
        s
    }
}

// ---------------------------------------------------------------------------
// The offer
// ---------------------------------------------------------------------------

pub open spec fn rtpmap(v: Seq<char>) -> AttributeView {
    AttributeView { name: "rtpmap"@, value: Some(v) }
}

/// The attributes that describe one codec.
pub open spec fn codec_attributes(c: CodecView) -> Seq<AttributeView> {
    if c.name == "PCMU"@ {
        seq![rtpmap("0 PCMU/8000"@)]
    } else if c.name == "PCMA"@ {
        seq![rtpmap("8 PCMA/8000"@)]
    } else if c.name == "opus"@ {
        seq![rtpmap("96 opus/48000/2"@)]
    } else if c.name == "telephone-event"@ {
        seq![
            rtpmap("101 telephone-event/8000"@),
            AttributeView { name: "fmtp"@, value: Some("101 0-16"@) },
        ]
    } else {
        seq![
            rtpmap(
                dec_str(c.payload_type as nat) + seq!['/'] + c.name + seq!['/'] + dec_str(
                    c.clock_rate as nat,
                ) + seq!['/'] + dec_str(c.channels as nat) + seq!['/'],
            ),
        ]
    }
}

pub open spec fn codecs_attributes(cs: Seq<CodecView>) -> Seq<AttributeView>
    decreases cs.len(),
{
    if cs.len() == 0 {
        Seq::empty()
    } else {
        codecs_attributes(cs.drop_last()) + codec_attributes(cs.last())
    }
}

pub open spec fn codecs_formats(cs: Seq<CodecView>) -> Seq<Seq<char>> {
    cs.map_values(|c: CodecView| dec_str(c.payload_type as nat))
}

/// The `m=` section that offers one stream.
pub open spec fn stream_media(st: SdpMediaStreamView) -> MediaView {
    MediaView {
        media_type: st.media_type,
        port: st.port,
        number_of_ports: None,
        proto: st.transport,
        media_formats: codecs_formats(st.codecs),
        title: None,
        connection: None,
        bandwidths: Seq::empty(),
        attributes: codecs_attributes(st.codecs),
    }
}

/// The attributes closing the last media section: packet time, maximum packet time and the
/// direction.
pub open spec fn closing_attributes(d: Direction) -> Seq<AttributeView> {
    seq![
        AttributeView { name: "ptime"@, value: Some("20"@) },
        AttributeView { name: "maxptime"@, value: Some("150"@) },
        AttributeView { name: d.text(), value: None },
    ]
}

pub open spec fn offer_medias(streams: Seq<SdpMediaStreamView>, d: Direction) -> Seq<MediaView> {
    let ms = streams.map_values(|st: SdpMediaStreamView| stream_media(st));
    if ms.len() == 0 {
        ms
    } else {
        let last = ms.last();
        ms.update(
            ms.len() - 1,
            MediaView { attributes: last.attributes + closing_attributes(d), ..last },
        )
    }
}

pub open spec fn addrtype_of(ip: IpAddr) -> AddrType {
    if ip.spec_is_ipv4() {
        AddrType::IP4
    } else {
        AddrType::IP6
    }
}

/// The offer generated from `params`, with the given session id and version.
pub open spec fn offer_view(params: SdpOfferParamsView, session_id: u64, session_version: u64) -> SessionView {
    SessionView {
        origin: OriginView {
            user: "-"@,
            session_id: session_id,
            session_version: session_version,
            nettype: NetType::IN,
            addrtype: addrtype_of(params.origin_ip),
            unicast_address: ip_text(params.origin_ip),
        },
        session_name: "-"@,
        session_information: None,
        uri: None,
        email_address: None,
        phone_number: None,
        connection: Some(
            ConnectionView {
                nettype: NetType::IN,
                addrtype: addrtype_of(params.origin_ip),
                address: ip_text(params.origin_ip),
            },
        ),
        bandwidths: Seq::empty(),
        time: seq![TimeView { time_active: TimeActive { start_time: 0, stop_time: 0 }, repeat_times: Seq::empty() }],
        attributes: Seq::empty(),
        media: offer_medias(params.media_streams, params.direction),
    }
}

/// The offer has one media section per media stream of the parameters, in the same order
/// (RFC 3264 section 5): each with the stream's media type, port and transport, and one format
/// per codec of the stream, that codec's payload type in decimal. The last section ends with
/// the offered direction.
pub proof fn lemma_offer_streams(p: SdpOfferParamsView, session_id: u64, session_version: u64)
    ensures
        ({
            let m = offer_view(p, session_id, session_version).media;
            let st = p.media_streams;
            &&& m.len() == st.len()
            &&& forall|i: int|
                #![trigger m[i]]
                0 <= i < st.len() ==> {
                    &&& m[i].media_type == st[i].media_type
                    &&& m[i].port == st[i].port
                    &&& m[i].proto == st[i].transport
                    &&& m[i].media_formats.len() == st[i].codecs.len()
                    &&& forall|k: int|
                        0 <= k < st[i].codecs.len() ==> #[trigger] m[i].media_formats[k] == dec_str(
                            st[i].codecs[k].payload_type as nat,
                        )
                }
            &&& m.len() > 0 ==> m.last().attributes.len() > 0 && m.last().attributes.last().value is None
                && direction_of(m.last().attributes.last().name) == Some(p.direction)
        }),
{
    let st = p.media_streams;
    let ms = st.map_values(|x: SdpMediaStreamView| stream_media(x));
    let m = offer_view(p, session_id, session_version).media;
    assert forall|i: int| 0 <= i < st.len() implies {
        &&& m[i].media_type == st[i].media_type
        &&& m[i].port == st[i].port
        &&& m[i].proto == st[i].transport
        &&& m[i].media_formats.len() == st[i].codecs.len()
        &&& forall|k: int|
            0 <= k < st[i].codecs.len() ==> #[trigger] m[i].media_formats[k] == dec_str(
                st[i].codecs[k].payload_type as nat,
            )
    } by {
        assert(ms[i] == stream_media(st[i]));
        assert(m[i].media_formats == ms[i].media_formats);
    }
    if m.len() > 0 {
        lemma_direction_names(p.direction);
        let last = ms.last();
        assert(m.last().attributes == last.attributes + closing_attributes(p.direction));
        assert(m.last().attributes.last() == closing_attributes(p.direction)[2]);
    }
}

fn push_attribute(out: &mut Vec<Attribute>, name: &str, value: Option<String>)
    ensures
        attributes_view(final(out)@) == attributes_view(old(out)@).push(
            AttributeView {
                name: name@,
                value: match value {
                    Some(v) => Some(v@),
                    None => None,
                },
            },
        ),
{
    let a = Attribute { name: String::from_str(name), value };
    let ghost before = out@;
    out.push(a);
    assert(attributes_view(out@) =~= attributes_view(before).push(a@));
}

/// Appends the attributes describing `c`.
fn push_codec_attributes(out: &mut Vec<Attribute>, c: &Codec)
    ensures
        attributes_view(final(out)@) == attributes_view(old(out)@) + codec_attributes(c@),
{
    let ghost before = attributes_view(out@);
    let name = c.name();
    if str_is(name, "PCMU") {
        push_attribute(out, "rtpmap", Some(String::from_str("0 PCMU/8000")));
        assert(attributes_view(out@) =~= before + codec_attributes(c@));
    } else if str_is(name, "PCMA") {
        push_attribute(out, "rtpmap", Some(String::from_str("8 PCMA/8000")));
    } else if str_is(name, "opus") {
        push_attribute(out, "rtpmap", Some(String::from_str("96 opus/48000/2")));
    } else if str_is(name, "telephone-event") {
        push_attribute(out, "rtpmap", Some(String::from_str("101 telephone-event/8000")));
        push_attribute(out, "fmtp", Some(String::from_str("101 0-16")));
    } else {
        let mut v = String::new();
        push_dec(&mut v, c.pt() as u64);
        push_char(&mut v, '/');
        v.append(name);
        push_char(&mut v, '/');
        push_dec(&mut v, c.clock_rate() as u64);
        push_char(&mut v, '/');
        push_dec(&mut v, c.channels() as u64);
        push_char(&mut v, '/');
        assert(v@ =~= dec_str(c@.payload_type as nat) + seq!['/'] + c@.name + seq!['/'] + dec_str(
            c@.clock_rate as nat,
        ) + seq!['/'] + dec_str(c@.channels as nat) + seq!['/']);
        push_attribute(out, "rtpmap", Some(v));
        assert(c@.name != "PCMU"@);
        assert(c@.name != "telephone-event"@);
        assert(codec_attributes(c@) == seq![rtpmap(v@)]);
        assert(attributes_view(out@) =~= before + codec_attributes(c@));
    }
    assert(attributes_view(out@) =~= before + codec_attributes(c@));
}

/// The `m=` section offering `st`.
fn stream_media_description(st: &SdpMediaStream) -> (r: MediaDescription)
    ensures
        r@ == stream_media(st@),
{
    let mut formats: Vec<String> = Vec::new();
    let mut attributes: Vec<Attribute> = Vec::new();
    let ghost cs = codecs_view(st.codecs@);
    let mut i: usize = 0;
    assert(cs.take(0) =~= Seq::<CodecView>::empty());
    while i < st.codecs.len()
        invariant
            i <= st.codecs.len(),
            cs == codecs_view(st.codecs@),
            attributes_view(attributes@) == codecs_attributes(cs.take(i as int)),
            formats@.map_values(|s: String| s@) == codecs_formats(cs.take(i as int)),
        decreases st.codecs.len() - i,
    {
        let c = &st.codecs[i];
        push_codec_attributes(&mut attributes, c);
        let f = u64_to_string(c.pt() as u64);
        let ghost fb = formats@;
        formats.push(f);
        proof {
            assert(cs.take(i + 1).drop_last() =~= cs.take(i as int));
            assert(cs.take(i + 1).last() == c@);
            assert(formats@.map_values(|s: String| s@) =~= fb.map_values(|s: String| s@).push(f@));
            assert(formats@.map_values(|s: String| s@) =~= codecs_formats(cs.take(i + 1)));
        }
        i = i + 1;
    }
    assert(cs.take(st.codecs.len() as int) =~= cs);
    let m = MediaDescription {
        media_type: st.media_type,
        port: st.port,
        number_of_ports: None,
        proto: st.transport,
        media_formats: formats,
        title: None,
        connection_information: None,
        bandwidth_information: Vec::new(),
        attributes,
    };
    assert(m@.bandwidths =~= Seq::empty());
    assert(m@ =~= stream_media(st@));
    m
}

/// The offer generated from `params` with the given session id and version (RFC 3264
/// section 5): one `m=` section per stream, codecs described by `rtpmap` (and `fmtp`)
/// attributes, the last section closed by `ptime`, `maxptime` and the direction.
pub fn build_offer(params: SdpOfferParams, session_id: u64, session_version: u64) -> (r: SessionDescription)
    ensures
        r@ == offer_view(params@, session_id, session_version),
{
    let ghost p = params@;
    let mut media: Vec<MediaDescription> = Vec::new();
    let mut i: usize = 0;
    let ghost all = p.media_streams.map_values(|st: SdpMediaStreamView| stream_media(st));
    while i < params.media_streams.len()
        invariant
            i <= params.media_streams.len(),
            p == params@,
            all == p.media_streams.map_values(|st: SdpMediaStreamView| stream_media(st)),
            medias_view(media@) == all.take(i as int),
        decreases params.media_streams.len() - i,
    {
        let m = stream_media_description(&params.media_streams[i]);
        let ghost mb = media@;
        media.push(m);
        proof {
            assert(medias_view(media@) =~= medias_view(mb).push(m@));
            assert(all.take(i + 1) =~= all.take(i as int).push(all[i as int]));
        }
        i = i + 1;
    }
    assert(all.take(params.media_streams.len() as int) =~= all);
    let n = media.len();
    if n > 0 {
        let mut last = media.pop().unwrap();
        let ghost la = attributes_view(last.attributes@);
        push_attribute(&mut last.attributes, "ptime", Some(String::from_str("20")));
        push_attribute(&mut last.attributes, "maxptime", Some(String::from_str("150")));
        let dname = params.direction.as_str();
        push_attribute(&mut last.attributes, dname, None);
        let ghost lv = last@;
        media.push(last);
        proof {
            assert(attributes_view(last.attributes@) =~= la + closing_attributes(p.direction));
            assert(medias_view(media@) =~= offer_medias(p.media_streams, p.direction));
        }
    } else {
        assert(medias_view(media@) =~= offer_medias(p.media_streams, p.direction));
    }
    let ip = params.origin_ip;
    let addrtype = if ip.is_ipv4() {
        AddrType::IP4
    } else {
        AddrType::IP6
    };
    let sd = SessionDescription {
        origin: Origin {
            user: String::from_str("-"),
            session_id,
            session_version,
            nettype: NetType::IN,
            addrtype,
            unicast_address: ip.to_string(),
        },
        session_name: String::from_str("-"),
        session_information: None,
        uri: None,
        email_address: None,
        phone_number: None,
        connection_information: Some(
            ConnectionInformation { nettype: NetType::IN, addrtype, conection_address: ip.to_string() },
        ),
        bandwidth_information: Vec::new(),
        time: vec![TimeDescription { time_active: TimeActive { start_time: 0, stop_time: 0 }, repeat_times: Vec::new() }],
        attributes: Vec::new(),
        media,
    };
    proof {
        assert(sd@.bandwidths =~= Seq::empty());
        assert(sd@.attributes =~= Seq::empty());
        assert(sd@.time[0].repeat_times =~= Seq::<Seq<char>>::empty());
        assert(sd@.time =~= offer_view(p, session_id, session_version).time);
        assert(sd@ =~= offer_view(p, session_id, session_version));
    }
    sd
}

} // verus!
