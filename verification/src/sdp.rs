//! The SDP session description model (RFC 4566) and its text form.

use vstd::prelude::*;
use vstd::string::*;
use crate::text::{push_char, push_dec, dec_str};

verus! {

broadcast use vstd::string::group_string_axioms;

/// Network type of an address (`IN`: internet).
#[derive(Debug, Clone, Copy, PartialEq, Eq, Structural)]
pub enum NetType {
    IN,
}

/// Address type (`IP4` or `IP6`).
#[derive(Debug, Clone, Copy, PartialEq, Eq, Structural)]
pub enum AddrType {
    IP4,
    IP6,
}

/// The media type of an `m=` line.
#[derive(Debug, Clone, Copy, PartialEq, Eq, Structural)]
pub enum MediaType {
    Audio,
    Video,
    Text,
    Application,
    Message,
}

/// The transport protocol of an `m=` line.
#[derive(Debug, Clone, Copy, PartialEq, Eq, Structural)]
pub enum SdpTransport {
    Udp,
    RTPAVP,
    RTPAVPF,
    RTPSAVP,
    RTPSAVPF,
}

/// Media direction attribute (RFC 3264).
#[derive(Debug, Clone, Copy, PartialEq, Eq, Structural)]
pub enum Direction {
    SendRecv,
    SendOnly,
    RecvOnly,
    Inactive,
}

impl NetType {
    pub open spec fn text(self) -> Seq<char> {
        "IN"@
    }

    pub fn as_str(&self) -> (r: &'static str)
        ensures
            r@ == self.text(),
    {
        "IN"
    }
}

impl AddrType {
    pub open spec fn text(self) -> Seq<char> {
        match self {
            AddrType::IP4 => "IP4"@,
            AddrType::IP6 => "IP6"@,
        }
    }

    pub fn as_str(&self) -> (r: &'static str)
        ensures
            r@ == self.text(),
    {
        match self {
            AddrType::IP4 => "IP4",
            AddrType::IP6 => "IP6",
        }
    }
}

impl MediaType {
    pub open spec fn text(self) -> Seq<char> {
        match self {
            MediaType::Audio => "audio"@,
            MediaType::Video => "video"@,
            MediaType::Text => "text"@,
            MediaType::Application => "application"@,
            MediaType::Message => "message"@,
        }
    }

    pub fn as_str(&self) -> (r: &'static str)
        ensures
            r@ == self.text(),
    {
        match self {
            MediaType::Audio => "audio",
            MediaType::Video => "video",
            MediaType::Text => "text",
            MediaType::Application => "application",
            MediaType::Message => "message",
        }
    }
}

impl SdpTransport {
    pub open spec fn text(self) -> Seq<char> {
        match self {
            SdpTransport::Udp => "udp"@,
            SdpTransport::RTPAVP => "RTP/AVP"@,
            SdpTransport::RTPAVPF => "RTP/AVPF"@,
            SdpTransport::RTPSAVP => "RTP/SAVP"@,
            SdpTransport::RTPSAVPF => "RTP/SAVPF"@,
        }
    }

    pub fn as_str(&self) -> (r: &'static str)
        ensures
            r@ == self.text(),
    {
        match self {
            SdpTransport::Udp => "udp",
            SdpTransport::RTPAVP => "RTP/AVP",
            SdpTransport::RTPAVPF => "RTP/AVPF",
            SdpTransport::RTPSAVP => "RTP/SAVP",
            SdpTransport::RTPSAVPF => "RTP/SAVPF",
        }
    }
}

impl Direction {
    /// The attribute name of the direction (`sendrecv`, `sendonly`, `recvonly`, `inactive`).
    pub open spec fn text(self) -> Seq<char> {
        match self {
            Direction::SendRecv => "sendrecv"@,
            Direction::SendOnly => "sendonly"@,
            Direction::RecvOnly => "recvonly"@,
            Direction::Inactive => "inactive"@,
        }
    }

    pub fn as_str(&self) -> (r: &'static str)
        ensures
            r@ == self.text(),
    {
        match self {
            Direction::SendRecv => "sendrecv",
            Direction::SendOnly => "sendonly",
            Direction::RecvOnly => "recvonly",
            Direction::Inactive => "inactive",
        }
    }

    /// The attribute name as an owned string.
    pub fn to_string(&self) -> (r: String)
        ensures
            r@ == self.text(),
    {
        String::from_str(self.as_str())
    }
}

/// `o=` line: originator and session identifier.
#[derive(Debug)]
pub struct Origin {
    pub user: String,
    pub session_id: u64,
    pub session_version: u64,
    pub nettype: NetType,
    pub addrtype: AddrType,
    pub unicast_address: String,
}

/// `c=` line: connection data.
#[derive(Debug)]
pub struct ConnectionInformation {
    pub nettype: NetType,
    pub addrtype: AddrType,
    pub conection_address: String,
}

/// `b=` line: proposed bandwidth.
#[derive(Debug)]
pub struct Bandwidth {
    pub bwtype: String,
    pub bandwidth: u64,
}

/// `a=` line: a property attribute (`a=name`) or a value attribute (`a=name:value`).
#[derive(Debug)]
pub struct Attribute {
    pub name: String,
    pub value: Option<String>,
}

/// `t=` line: start and stop time.
#[derive(Debug, Clone, Copy, PartialEq, Eq, Structural)]
pub struct TimeActive {
    pub start_time: u64,
    pub stop_time: u64,
}

/// A `t=` line with the `r=` lines that follow it.
#[derive(Debug)]
pub struct TimeDescription {
    pub time_active: TimeActive,
    pub repeat_times: Vec<String>,
}

/// An `m=` section.
#[derive(Debug)]
pub struct MediaDescription {
    pub media_type: MediaType,
    pub port: u16,
    pub number_of_ports: Option<u16>,
    pub proto: SdpTransport,
    pub media_formats: Vec<String>,
    pub title: Option<String>,
    pub connection_information: Option<ConnectionInformation>,
    pub bandwidth_information: Vec<Bandwidth>,
    pub attributes: Vec<Attribute>,
}

/// A session description.
#[derive(Debug)]
pub struct SessionDescription {
    pub origin: Origin,
    pub session_name: String,
    pub session_information: Option<String>,
    pub uri: Option<String>,
    pub email_address: Option<String>,
    pub phone_number: Option<String>,
    pub connection_information: Option<ConnectionInformation>,
    pub bandwidth_information: Vec<Bandwidth>,
    pub time: Vec<TimeDescription>,
    pub attributes: Vec<Attribute>,
    pub media: Vec<MediaDescription>,
}

// ---------------------------------------------------------------------------
// Mathematical model: every string is its sequence of characters.
// ---------------------------------------------------------------------------

pub struct OriginView {
    pub user: Seq<char>,
    pub session_id: u64,
    pub session_version: u64,
    pub nettype: NetType,
    pub addrtype: AddrType,
    pub unicast_address: Seq<char>,
}

pub struct ConnectionView {
    pub nettype: NetType,
    pub addrtype: AddrType,
    pub address: Seq<char>,
}

pub struct BandwidthView {
    pub bwtype: Seq<char>,
    pub bandwidth: u64,
}

pub struct AttributeView {
    pub name: Seq<char>,
    pub value: Option<Seq<char>>,
}

pub struct TimeView {
    pub time_active: TimeActive,
    pub repeat_times: Seq<Seq<char>>,
}

pub struct MediaView {
    pub media_type: MediaType,
    pub port: u16,
    pub number_of_ports: Option<u16>,
    pub proto: SdpTransport,
    pub media_formats: Seq<Seq<char>>,
    pub title: Option<Seq<char>>,
    pub connection: Option<ConnectionView>,
    pub bandwidths: Seq<BandwidthView>,
    pub attributes: Seq<AttributeView>,
}

pub struct SessionView {
    pub origin: OriginView,
    pub session_name: Seq<char>,
    pub session_information: Option<Seq<char>>,
    pub uri: Option<Seq<char>>,
    pub email_address: Option<Seq<char>>,
    pub phone_number: Option<Seq<char>>,
    pub connection: Option<ConnectionView>,
    pub bandwidths: Seq<BandwidthView>,
    pub time: Seq<TimeView>,
    pub attributes: Seq<AttributeView>,
    pub media: Seq<MediaView>,
}

pub open spec fn opt_view(o: Option<String>) -> Option<Seq<char>> {
    match o {
        Some(s) => Some(s@),
        None => None,
    }
}

pub open spec fn strings_view(v: Seq<String>) -> Seq<Seq<char>> {
    v.map_values(|s: String| s@)
}

impl View for Origin {
    type V = OriginView;

    open spec fn view(&self) -> OriginView {
        OriginView {
            user: self.user@,
            session_id: self.session_id,
            session_version: self.session_version,
            nettype: self.nettype,
            addrtype: self.addrtype,
            unicast_address: self.unicast_address@,
        }
    }
}

impl View for ConnectionInformation {
    type V = ConnectionView;

    open spec fn view(&self) -> ConnectionView {
        ConnectionView {
            nettype: self.nettype,
            addrtype: self.addrtype,
            address: self.conection_address@,
        }
    }
}

pub open spec fn opt_conn_view(c: Option<ConnectionInformation>) -> Option<ConnectionView> {
    match c {
        Some(c) => Some(c@),
        None => None,
    }
}

impl View for Bandwidth {
    type V = BandwidthView;

    open spec fn view(&self) -> BandwidthView {
        BandwidthView { bwtype: self.bwtype@, bandwidth: self.bandwidth }
    }
}

impl View for Attribute {
    type V = AttributeView;

    open spec fn view(&self) -> AttributeView {
        AttributeView { name: self.name@, value: opt_view(self.value) }
    }
}

impl View for TimeDescription {
    type V = TimeView;

    open spec fn view(&self) -> TimeView {
        TimeView { time_active: self.time_active, repeat_times: strings_view(self.repeat_times@) }
    }
}

pub open spec fn bandwidths_view(v: Seq<Bandwidth>) -> Seq<BandwidthView> {
    v.map_values(|b: Bandwidth| b@)
}

pub open spec fn attributes_view(v: Seq<Attribute>) -> Seq<AttributeView> {
    v.map_values(|a: Attribute| a@)
}

pub open spec fn times_view(v: Seq<TimeDescription>) -> Seq<TimeView> {
    v.map_values(|t: TimeDescription| t@)
}

impl View for MediaDescription {
    type V = MediaView;

    open spec fn view(&self) -> MediaView {
        MediaView {
            media_type: self.media_type,
            port: self.port,
            number_of_ports: self.number_of_ports,
            proto: self.proto,
            media_formats: strings_view(self.media_formats@),
            title: opt_view(self.title),
            connection: opt_conn_view(self.connection_information),
            bandwidths: bandwidths_view(self.bandwidth_information@),
            attributes: attributes_view(self.attributes@),
        }
    }
}

pub open spec fn medias_view(v: Seq<MediaDescription>) -> Seq<MediaView> {
    v.map_values(|m: MediaDescription| m@)
}

impl View for SessionDescription {
    type V = SessionView;

    open spec fn view(&self) -> SessionView {
        SessionView {
            origin: self.origin@,
            session_name: self.session_name@,
            session_information: opt_view(self.session_information),
            uri: opt_view(self.uri),
            email_address: opt_view(self.email_address),
            phone_number: opt_view(self.phone_number),
            connection: opt_conn_view(self.connection_information),
            bandwidths: bandwidths_view(self.bandwidth_information@),
            time: times_view(self.time@),
            attributes: attributes_view(self.attributes@),
            media: medias_view(self.media@),
        }
    }
}


fn clone_opt_string(o: &Option<String>) -> (r: Option<String>)
    ensures
        opt_view(r) == opt_view(*o),
{
    match o {
        Some(s) => Some(s.clone()),
        None => None,
    }
}

fn clone_strings(v: &Vec<String>) -> (r: Vec<String>)
    ensures
        strings_view(r@) == strings_view(v@),
{
    let mut out: Vec<String> = Vec::new();
    let mut i: usize = 0;
    while i < v.len()
        invariant
            i <= v.len(),
            strings_view(out@) == strings_view(v@.take(i as int)),
        decreases v.len() - i,
    {
        let c = v[i].clone();
        assert(c@ == v@[i as int]@);
        let ghost before = out@;
        out.push(c);
        assert(strings_view(out@) =~= strings_view(before).push(c@));
        assert(v@.take(i + 1) =~= v@.take(i as int).push(v@[i as int]));
        assert(strings_view(out@) =~= strings_view(v@.take(i + 1)));
        i = i + 1;
    }
    assert(v@.take(v.len() as int) =~= v@);
    out
}

impl Clone for Origin {
    fn clone(&self) -> (r: Self)
        ensures
            r@ == self@,
    {
        Origin {
            user: self.user.clone(),
            session_id: self.session_id,
            session_version: self.session_version,
            nettype: self.nettype,
            addrtype: self.addrtype,
            unicast_address: self.unicast_address.clone(),
        }
    }
}

impl Clone for ConnectionInformation {
    fn clone(&self) -> (r: Self)
        ensures
            r@ == self@,
    {
        ConnectionInformation {
            nettype: self.nettype,
            addrtype: self.addrtype,
            conection_address: self.conection_address.clone(),
        }
    }
}

fn clone_opt_connection(c: &Option<ConnectionInformation>) -> (r: Option<ConnectionInformation>)
    ensures
        opt_conn_view(r) == opt_conn_view(*c),
{
    match c {
        Some(c) => Some(c.clone()),
        None => None,
    }
}

impl Clone for Bandwidth {
    fn clone(&self) -> (r: Self)
        ensures
            r@ == self@,
    {
        Bandwidth { bwtype: self.bwtype.clone(), bandwidth: self.bandwidth }
    }
}

impl Clone for Attribute {
    fn clone(&self) -> (r: Self)
        ensures
            r@ == self@,
    {
        Attribute { name: self.name.clone(), value: clone_opt_string(&self.value) }
    }
}

fn clone_bandwidths(v: &Vec<Bandwidth>) -> (r: Vec<Bandwidth>)
    ensures
        bandwidths_view(r@) == bandwidths_view(v@),
{
    let mut out: Vec<Bandwidth> = Vec::new();
    let mut i: usize = 0;
    while i < v.len()
        invariant
            i <= v.len(),
            bandwidths_view(out@) == bandwidths_view(v@.take(i as int)),
        decreases v.len() - i,
    {
        let c = v[i].clone();
        assert(c@ == v@[i as int]@);
        let ghost before = out@;
        out.push(c);
        assert(bandwidths_view(out@) =~= bandwidths_view(before).push(c@));
        assert(v@.take(i + 1) =~= v@.take(i as int).push(v@[i as int]));
        assert(bandwidths_view(out@) =~= bandwidths_view(v@.take(i + 1)));
        i = i + 1;
    }
    assert(v@.take(v.len() as int) =~= v@);
    out
}

/// A copy of the attributes.
pub fn clone_attributes(v: &Vec<Attribute>) -> (r: Vec<Attribute>)
    ensures
        attributes_view(r@) == attributes_view(v@),
{
    let mut out: Vec<Attribute> = Vec::new();
    let mut i: usize = 0;
    while i < v.len()
        invariant
            i <= v.len(),
            attributes_view(out@) == attributes_view(v@.take(i as int)),
        decreases v.len() - i,
    {
        let c = v[i].clone();
        assert(c@ == v@[i as int]@);
        let ghost before = out@;
        out.push(c);
        assert(attributes_view(out@) =~= attributes_view(before).push(c@));
        assert(v@.take(i + 1) =~= v@.take(i as int).push(v@[i as int]));
        assert(attributes_view(out@) =~= attributes_view(v@.take(i + 1)));
        i = i + 1;
    }
    assert(v@.take(v.len() as int) =~= v@);
    out
}

impl Clone for TimeDescription {
    fn clone(&self) -> (r: Self)
        ensures
            r@ == self@,
    {
        TimeDescription { time_active: self.time_active, repeat_times: clone_strings(&self.repeat_times) }
    }
}

/// A copy of the time descriptions.
pub fn clone_times(v: &Vec<TimeDescription>) -> (r: Vec<TimeDescription>)
    ensures
        times_view(r@) == times_view(v@),
{
    let mut out: Vec<TimeDescription> = Vec::new();
    let mut i: usize = 0;
    while i < v.len()
        invariant
            i <= v.len(),
            times_view(out@) == times_view(v@.take(i as int)),
        decreases v.len() - i,
    {
        let c = v[i].clone();
        assert(c@ == v@[i as int]@);
        let ghost before = out@;
        out.push(c);
        assert(times_view(out@) =~= times_view(before).push(c@));
        assert(v@.take(i + 1) =~= v@.take(i as int).push(v@[i as int]));
        assert(times_view(out@) =~= times_view(v@.take(i + 1)));
        i = i + 1;
    }
    assert(v@.take(v.len() as int) =~= v@);
    out
}

impl Clone for MediaDescription {
    fn clone(&self) -> (r: Self)
        ensures
            r@ == self@,
    {
        MediaDescription {
            media_type: self.media_type,
            port: self.port,
            number_of_ports: self.number_of_ports,
            proto: self.proto,
            media_formats: clone_strings(&self.media_formats),
            title: clone_opt_string(&self.title),
            connection_information: clone_opt_connection(&self.connection_information),
            bandwidth_information: clone_bandwidths(&self.bandwidth_information),
            attributes: clone_attributes(&self.attributes),
        }
    }
}

fn clone_medias(v: &Vec<MediaDescription>) -> (r: Vec<MediaDescription>)
    ensures
        medias_view(r@) == medias_view(v@),
{
    let mut out: Vec<MediaDescription> = Vec::new();
    let mut i: usize = 0;
    while i < v.len()
        invariant
            i <= v.len(),
            medias_view(out@) == medias_view(v@.take(i as int)),
        decreases v.len() - i,
    {
        let c = v[i].clone();
        assert(c@ == v@[i as int]@);
        let ghost before = out@;
        out.push(c);
        assert(medias_view(out@) =~= medias_view(before).push(c@));
        assert(v@.take(i + 1) =~= v@.take(i as int).push(v@[i as int]));
        assert(medias_view(out@) =~= medias_view(v@.take(i + 1)));
        i = i + 1;
    }
    assert(v@.take(v.len() as int) =~= v@);
    out
}

impl Clone for SessionDescription {
    fn clone(&self) -> (r: Self)
        ensures
            r@ == self@,
    {
        SessionDescription {
            origin: self.origin.clone(),
            session_name: self.session_name.clone(),
            session_information: clone_opt_string(&self.session_information),
            uri: clone_opt_string(&self.uri),
            email_address: clone_opt_string(&self.email_address),
            phone_number: clone_opt_string(&self.phone_number),
            connection_information: clone_opt_connection(&self.connection_information),
            bandwidth_information: clone_bandwidths(&self.bandwidth_information),
            time: clone_times(&self.time),
            attributes: clone_attributes(&self.attributes),
            media: clone_medias(&self.media),
        }
    }
}

/// An empty description: user, session name and address empty, ids zero, `IN IP4`, no
/// optional fields, no timing and no media.
pub open spec fn empty_session() -> SessionView {
    SessionView {
        origin: OriginView {
            user: Seq::empty(),
            session_id: 0,
            session_version: 0,
            nettype: NetType::IN,
            addrtype: AddrType::IP4,
            unicast_address: Seq::empty(),
        },
        session_name: Seq::empty(),
        session_information: None,
        uri: None,
        email_address: None,
        phone_number: None,
        connection: None,
        bandwidths: Seq::empty(),
        time: Seq::empty(),
        attributes: Seq::empty(),
        media: Seq::empty(),
    }
}

impl Default for SessionDescription {
    fn default() -> (r: Self)
        ensures
            r@ == empty_session(),
    {
        let r = SessionDescription {
            origin: Origin {
                user: String::new(),
                session_id: 0,
                session_version: 0,
                nettype: NetType::IN,
                addrtype: AddrType::IP4,
                unicast_address: String::new(),
            },
            session_name: String::new(),
            session_information: None,
            uri: None,
            email_address: None,
            phone_number: None,
            connection_information: None,
            bandwidth_information: Vec::new(),
            time: Vec::new(),
            attributes: Vec::new(),
            media: Vec::new(),
        };
        assert(r@.bandwidths =~= Seq::<BandwidthView>::empty());
        assert(r@.time =~= Seq::<TimeView>::empty());
        assert(r@.attributes =~= Seq::<AttributeView>::empty());
        assert(r@.media =~= Seq::<MediaView>::empty());
        assert(r@.origin =~= empty_session().origin);
        assert(r@ =~= empty_session());
        r
    }
}

// ---------------------------------------------------------------------------
// Text form (RFC 4566 section 5): one `<type>=<value>` line per field, each ended by CRLF.
// ---------------------------------------------------------------------------

pub open spec fn sp() -> Seq<char> {
    seq![' ']
}

pub open spec fn crlf() -> Seq<char> {
    seq!['\r', '\n']
}

/// The line `<t>=<v>` (without its line break).
pub open spec fn line(t: char, v: Seq<char>) -> Seq<char> {
    seq![t, '='] + v
}

/// Lines, each followed by CRLF.
pub open spec fn join_lines(ls: Seq<Seq<char>>) -> Seq<char>
    decreases ls.len(),
{
    if ls.len() == 0 {
        Seq::empty()
    } else {
        join_lines(ls.drop_last()) + ls.last() + crlf()
    }
}

pub open spec fn origin_text(o: OriginView) -> Seq<char> {
    o.user + sp() + dec_str(o.session_id as nat) + sp() + dec_str(o.session_version as nat) + sp()
        + o.nettype.text() + sp() + o.addrtype.text() + sp() + o.unicast_address
}

pub open spec fn connection_text(c: ConnectionView) -> Seq<char> {
    c.nettype.text() + sp() + c.addrtype.text() + sp() + c.address
}

pub open spec fn bandwidth_text(b: BandwidthView) -> Seq<char> {
    b.bwtype + seq![':'] + dec_str(b.bandwidth as nat)
}

pub open spec fn attribute_text(a: AttributeView) -> Seq<char> {
    match a.value {
        Some(v) => a.name + seq![':'] + v,
        None => a.name,
    }
}

pub open spec fn time_text(t: TimeActive) -> Seq<char> {
    dec_str(t.start_time as nat) + sp() + dec_str(t.stop_time as nat)
}

/// The format list of an `m=` line: each format preceded by a space.
pub open spec fn formats_text(fs: Seq<Seq<char>>) -> Seq<char>
    decreases fs.len(),
{
    if fs.len() == 0 {
        Seq::empty()
    } else {
        formats_text(fs.drop_last()) + sp() + fs.last()
    }
}

pub open spec fn port_text(port: u16, n: Option<u16>) -> Seq<char> {
    match n {
        Some(n) => dec_str(port as nat) + seq!['/'] + dec_str(n as nat),
        None => dec_str(port as nat),
    }
}

pub open spec fn media_text(m: MediaView) -> Seq<char> {
    m.media_type.text() + sp() + port_text(m.port, m.number_of_ports) + sp() + m.proto.text()
        + formats_text(m.media_formats)
}

pub open spec fn opt_lines(t: char, o: Option<Seq<char>>) -> Seq<Seq<char>> {
    match o {
        Some(v) => seq![line(t, v)],
        None => Seq::empty(),
    }
}

pub open spec fn connection_lines(c: Option<ConnectionView>) -> Seq<Seq<char>> {
    match c {
        Some(c) => seq![line('c', connection_text(c))],
        None => Seq::empty(),
    }
}

pub open spec fn bandwidth_lines(bs: Seq<BandwidthView>) -> Seq<Seq<char>> {
    bs.map_values(|b: BandwidthView| line('b', bandwidth_text(b)))
}

pub open spec fn attribute_lines(a: Seq<AttributeView>) -> Seq<Seq<char>> {
    a.map_values(|x: AttributeView| line('a', attribute_text(x)))
}

pub open spec fn repeat_lines(r: Seq<Seq<char>>) -> Seq<Seq<char>> {
    r.map_values(|x: Seq<char>| line('r', x))
}

pub open spec fn time_section_lines(t: TimeView) -> Seq<Seq<char>> {
    seq![line('t', time_text(t.time_active))] + repeat_lines(t.repeat_times)
}

pub open spec fn time_lines(ts: Seq<TimeView>) -> Seq<Seq<char>>
    decreases ts.len(),
{
    if ts.len() == 0 {
        Seq::empty()
    } else {
        time_lines(ts.drop_last()) + time_section_lines(ts.last())
    }
}

pub open spec fn media_section_lines(m: MediaView) -> Seq<Seq<char>> {
    seq![line('m', media_text(m))] + opt_lines('i', m.title) + connection_lines(m.connection)
        + bandwidth_lines(m.bandwidths) + attribute_lines(m.attributes)
}

pub open spec fn media_lines(ms: Seq<MediaView>) -> Seq<Seq<char>>
    decreases ms.len(),
{
    if ms.len() == 0 {
        Seq::empty()
    } else {
        media_lines(ms.drop_last()) + media_section_lines(ms.last())
    }
}

/// The lines of a session description, in the order RFC 4566 prescribes.
pub open spec fn session_lines(sd: SessionView) -> Seq<Seq<char>> {
    seq![line('v', seq!['0']), line('o', origin_text(sd.origin)), line('s', sd.session_name)]
        + opt_lines('i', sd.session_information) + opt_lines('u', sd.uri) + opt_lines(
        'e',
        sd.email_address,
    ) + opt_lines('p', sd.phone_number) + connection_lines(sd.connection) + bandwidth_lines(
        sd.bandwidths,
    ) + time_lines(sd.time) + attribute_lines(sd.attributes) + media_lines(sd.media)
}

/// The SDP text of a session description.
pub open spec fn sdp_text(sd: SessionView) -> Seq<char> {
    join_lines(session_lines(sd))
}

/// Joining two runs of lines is joining them one after the other.
pub proof fn lemma_join_add(a: Seq<Seq<char>>, b: Seq<Seq<char>>)
    ensures
        join_lines(a + b) == join_lines(a) + join_lines(b),
    decreases b.len(),
{
    if b.len() == 0 {
        assert(a + b =~= a);
        assert(join_lines(a) + join_lines(b) =~= join_lines(a));
    } else {
        lemma_join_add(a, b.drop_last());
        assert((a + b).drop_last() =~= a + b.drop_last());
        assert((a + b).last() == b.last());
        assert(join_lines(a + b) =~= join_lines(a) + join_lines(b));
    }
}

pub proof fn lemma_join_one(l: Seq<char>)
    ensures
        join_lines(seq![l]) == l + crlf(),
{
    assert(seq![l].drop_last() =~= Seq::<Seq<char>>::empty());
    assert(join_lines(Seq::<Seq<char>>::empty()) == Seq::<char>::empty());
    assert(join_lines(seq![l]) =~= l + crlf());
}

pub proof fn lemma_join_push(ls: Seq<Seq<char>>, l: Seq<char>)
    ensures
        join_lines(ls.push(l)) == join_lines(ls) + l + crlf(),
{
    assert(ls.push(l).drop_last() =~= ls);
}

// ---------------------------------------------------------------------------
// Writing the text form.
// ---------------------------------------------------------------------------

fn write_line_start(out: &mut String, t: char)
    ensures
        final(out)@ == old(out)@ + seq![t, '='],
{
    push_char(out, t);
    push_char(out, '=');
    assert(final(out)@ =~= old(out)@ + seq![t, '=']);
}

fn write_line_end(out: &mut String)
    ensures
        final(out)@ == old(out)@ + crlf(),
{
    push_char(out, '\r');
    push_char(out, '\n');
    assert(final(out)@ =~= old(out)@ + crlf());
}

fn write_text_line(out: &mut String, t: char, v: &String)
    ensures
        final(out)@ == old(out)@ + join_lines(seq![line(t, v@)]),
{
    write_line_start(out, t);
    out.append(v.as_str());
    write_line_end(out);
    proof {
        lemma_join_one(line(t, v@));
        assert(final(out)@ =~= old(out)@ + join_lines(seq![line(t, v@)]));
    }
}

fn write_opt_line(out: &mut String, t: char, v: &Option<String>)
    ensures
        final(out)@ == old(out)@ + join_lines(opt_lines(t, opt_view(*v))),
{
    match v {
        Some(s) => {
            write_text_line(out, t, s);
        },
        None => {
            assert(old(out)@ + join_lines(opt_lines(t, opt_view(*v))) =~= old(out)@);
        },
    }
}

impl ConnectionInformation {
    fn write_value(&self, out: &mut String)
        ensures
            final(out)@ == old(out)@ + connection_text(self@),
    {
        out.append(self.nettype.as_str());
        push_char(out, ' ');
        out.append(self.addrtype.as_str());
        push_char(out, ' ');
        out.append(self.conection_address.as_str());
        assert(final(out)@ =~= old(out)@ + connection_text(self@));
    }
}

fn write_connection_lines(out: &mut String, c: &Option<ConnectionInformation>)
    ensures
        final(out)@ == old(out)@ + join_lines(connection_lines(opt_conn_view(*c))),
{
    match c {
        Some(c) => {
            write_line_start(out, 'c');
            c.write_value(out);
            write_line_end(out);
            proof {
                lemma_join_one(line('c', connection_text(c@)));
            }
            assert(final(out)@ =~= old(out)@ + join_lines(connection_lines(opt_conn_view(Some(*c)))));
        },
        None => {
            assert(old(out)@ + join_lines(connection_lines(opt_conn_view(*c))) =~= old(out)@);
        },
    }
}

fn write_bandwidth_lines(out: &mut String, bs: &Vec<Bandwidth>)
    ensures
        final(out)@ == old(out)@ + join_lines(bandwidth_lines(bandwidths_view(bs@))),
{
    let ghost start = out@;
    let ghost all = bandwidth_lines(bandwidths_view(bs@));
    let mut i: usize = 0;
    assert(all.take(0) =~= Seq::<Seq<char>>::empty());
    while i < bs.len()
        invariant
            i <= bs.len(),
            all == bandwidth_lines(bandwidths_view(bs@)),
            out@ == start + join_lines(all.take(i as int)),
        decreases bs.len() - i,
    {
        let b = &bs[i];
        write_line_start(out, 'b');
        out.append(b.bwtype.as_str());
        push_char(out, ':');
        push_dec(out, b.bandwidth);
        write_line_end(out);
        proof {
            assert(all.take(i + 1) =~= all.take(i as int).push(all[i as int]));
            assert(all[i as int] == line('b', bandwidth_text(b@)));
            lemma_join_push(all.take(i as int), all[i as int]);
        }
        assert(out@ =~= start + join_lines(all.take(i + 1)));
        i = i + 1;
    }
    assert(all.take(bs.len() as int) =~= all);
}

impl Attribute {
    fn write_value(&self, out: &mut String)
        ensures
            final(out)@ == old(out)@ + attribute_text(self@),
    {
        out.append(self.name.as_str());
        match &self.value {
            Some(v) => {
                push_char(out, ':');
                out.append(v.as_str());
            },
            None => {},
        }
        assert(final(out)@ =~= old(out)@ + attribute_text(self@));
    }
}

fn write_attribute_lines(out: &mut String, attrs: &Vec<Attribute>)
    ensures
        final(out)@ == old(out)@ + join_lines(attribute_lines(attributes_view(attrs@))),
{
    let ghost start = out@;
    let ghost all = attribute_lines(attributes_view(attrs@));
    let mut i: usize = 0;
    assert(all.take(0) =~= Seq::<Seq<char>>::empty());
    while i < attrs.len()
        invariant
            i <= attrs.len(),
            all == attribute_lines(attributes_view(attrs@)),
            out@ == start + join_lines(all.take(i as int)),
        decreases attrs.len() - i,
    {
        write_line_start(out, 'a');
        attrs[i].write_value(out);
        write_line_end(out);
        proof {
            assert(all.take(i + 1) =~= all.take(i as int).push(all[i as int]));
            lemma_join_push(all.take(i as int), all[i as int]);
        }
        assert(out@ =~= start + join_lines(all.take(i + 1)));
        i = i + 1;
    }
    assert(all.take(attrs.len() as int) =~= all);
}

fn write_repeat_lines(out: &mut String, rs: &Vec<String>)
    ensures
        final(out)@ == old(out)@ + join_lines(repeat_lines(strings_view(rs@))),
{
    let ghost start = out@;
    let ghost all = repeat_lines(strings_view(rs@));
    let mut i: usize = 0;
    assert(all.take(0) =~= Seq::<Seq<char>>::empty());
    while i < rs.len()
        invariant
            i <= rs.len(),
            all == repeat_lines(strings_view(rs@)),
            out@ == start + join_lines(all.take(i as int)),
        decreases rs.len() - i,
    {
        write_line_start(out, 'r');
        out.append(rs[i].as_str());
        write_line_end(out);
        proof {
            assert(all.take(i + 1) =~= all.take(i as int).push(all[i as int]));
            lemma_join_push(all.take(i as int), all[i as int]);
        }
        assert(out@ =~= start + join_lines(all.take(i + 1)));
        i = i + 1;
    }
    assert(all.take(rs.len() as int) =~= all);
}

fn write_time_lines(out: &mut String, ts: &Vec<TimeDescription>)
    ensures
        final(out)@ == old(out)@ + join_lines(time_lines(times_view(ts@))),
{
    let ghost start = out@;
    let ghost all = times_view(ts@);
    let mut i: usize = 0;
    assert(all.take(0) =~= Seq::<TimeView>::empty());
    while i < ts.len()
        invariant
            i <= ts.len(),
            all == times_view(ts@),
            out@ == start + join_lines(time_lines(all.take(i as int))),
        decreases ts.len() - i,
    {
        let t = &ts[i];
        let ghost before = out@;
        write_line_start(out, 't');
        push_dec(out, t.time_active.start_time);
        push_char(out, ' ');
        push_dec(out, t.time_active.stop_time);
        write_line_end(out);
        let ghost mid = out@;
        write_repeat_lines(out, &t.repeat_times);
        proof {
            let tl = line('t', time_text(t.time_active));
            lemma_join_one(tl);
            assert(mid =~= before + join_lines(seq![tl]));
            assert(all.take(i + 1).drop_last() =~= all.take(i as int));
            assert(all.take(i + 1).last() == t@);
            lemma_join_add(time_lines(all.take(i as int)), time_section_lines(t@));
            lemma_join_add(seq![tl], repeat_lines(t@.repeat_times));
        }
        assert(out@ =~= start + join_lines(time_lines(all.take(i + 1))));
        i = i + 1;
    }
    assert(all.take(ts.len() as int) =~= all);
}

impl MediaDescription {
    fn write_value(&self, out: &mut String)
        ensures
            final(out)@ == old(out)@ + media_text(self@),
    {
        out.append(self.media_type.as_str());
        push_char(out, ' ');
        push_dec(out, self.port as u64);
        match self.number_of_ports {
            Some(n) => {
                push_char(out, '/');
                push_dec(out, n as u64);
            },
            None => {},
        }
        push_char(out, ' ');
        out.append(self.proto.as_str());
        let ghost pre = out@;
        let ghost fs = strings_view(self.media_formats@);
        let mut i: usize = 0;
        assert(fs.take(0) =~= Seq::<Seq<char>>::empty());
        while i < self.media_formats.len()
            invariant
                i <= self.media_formats.len(),
                fs == strings_view(self.media_formats@),
                out@ == pre + formats_text(fs.take(i as int)),
            decreases self.media_formats.len() - i,
        {
            push_char(out, ' ');
            out.append(self.media_formats[i].as_str());
            assert(fs.take(i + 1).drop_last() =~= fs.take(i as int));
            assert(out@ =~= pre + formats_text(fs.take(i + 1)));
            i = i + 1;
        }
        assert(fs.take(self.media_formats.len() as int) =~= fs);
        assert(final(out)@ =~= old(out)@ + media_text(self@));
    }

    fn write_lines(&self, out: &mut String)
        ensures
            final(out)@ == old(out)@ + join_lines(media_section_lines(self@)),
    {
        let ghost m = self@;
        write_line_start(out, 'm');
        self.write_value(out);
        write_line_end(out);
        let ghost a = out@;
        write_opt_line(out, 'i', &self.title);
        let ghost b = out@;
        write_connection_lines(out, &self.connection_information);
        let ghost c = out@;
        write_bandwidth_lines(out, &self.bandwidth_information);
        let ghost d = out@;
        write_attribute_lines(out, &self.attributes);
        proof {
            let ml = seq![line('m', media_text(m))];
            lemma_join_one(line('m', media_text(m)));
            let l1 = ml + opt_lines('i', m.title);
            let l2 = l1 + connection_lines(m.connection);
            let l3 = l2 + bandwidth_lines(m.bandwidths);
            lemma_join_add(ml, opt_lines('i', m.title));
            lemma_join_add(l1, connection_lines(m.connection));
            lemma_join_add(l2, bandwidth_lines(m.bandwidths));
            lemma_join_add(l3, attribute_lines(m.attributes));
            assert(final(out)@ =~= old(out)@ + join_lines(media_section_lines(m)));
        }
    }
}

fn write_media_lines(out: &mut String, ms: &Vec<MediaDescription>)
    ensures
        final(out)@ == old(out)@ + join_lines(media_lines(medias_view(ms@))),
{
    let ghost start = out@;
    let ghost all = medias_view(ms@);
    let mut i: usize = 0;
    assert(all.take(0) =~= Seq::<MediaView>::empty());
    while i < ms.len()
        invariant
            i <= ms.len(),
            all == medias_view(ms@),
            out@ == start + join_lines(media_lines(all.take(i as int))),
        decreases ms.len() - i,
    {
        ms[i].write_lines(out);
        proof {
            assert(all.take(i + 1).drop_last() =~= all.take(i as int));
            assert(all.take(i + 1).last() == ms@[i as int]@);
            lemma_join_add(media_lines(all.take(i as int)), media_section_lines(ms@[i as int]@));
        }
        assert(out@ =~= start + join_lines(media_lines(all.take(i + 1))));
        i = i + 1;
    }
    assert(all.take(ms.len() as int) =~= all);
}

proof fn lemma_session_text(sd: SessionView)
    ensures
        sdp_text(sd) == join_lines(
            seq![line('v', seq!['0']), line('o', origin_text(sd.origin)), line('s', sd.session_name)],
        ) + join_lines(opt_lines('i', sd.session_information)) + join_lines(opt_lines('u', sd.uri))
            + join_lines(opt_lines('e', sd.email_address)) + join_lines(
            opt_lines('p', sd.phone_number),
        ) + join_lines(connection_lines(sd.connection)) + join_lines(
            bandwidth_lines(sd.bandwidths),
        ) + join_lines(time_lines(sd.time)) + join_lines(attribute_lines(sd.attributes))
            + join_lines(media_lines(sd.media)),
{
    let a0 = seq![line('v', seq!['0']), line('o', origin_text(sd.origin)), line('s', sd.session_name)];
    let a1 = a0 + opt_lines('i', sd.session_information);
    let a2 = a1 + opt_lines('u', sd.uri);
    let a3 = a2 + opt_lines('e', sd.email_address);
    let a4 = a3 + opt_lines('p', sd.phone_number);
    let a5 = a4 + connection_lines(sd.connection);
    let a6 = a5 + bandwidth_lines(sd.bandwidths);
    let a7 = a6 + time_lines(sd.time);
    let a8 = a7 + attribute_lines(sd.attributes);
    lemma_join_add(a0, opt_lines('i', sd.session_information));
    lemma_join_add(a1, opt_lines('u', sd.uri));
    lemma_join_add(a2, opt_lines('e', sd.email_address));
    lemma_join_add(a3, opt_lines('p', sd.phone_number));
    lemma_join_add(a4, connection_lines(sd.connection));
    lemma_join_add(a5, bandwidth_lines(sd.bandwidths));
    lemma_join_add(a6, time_lines(sd.time));
    lemma_join_add(a7, attribute_lines(sd.attributes));
    lemma_join_add(a8, media_lines(sd.media));
}

impl SessionDescription {
    /// The SDP text of this description.
    pub fn encode_sdp(&self) -> (r: String)
        ensures
            r@ == sdp_text(self@),
    {
        let ghost sd = self@;
        let mut out = String::new();
        write_line_start(&mut out, 'v');
        push_char(&mut out, '0');
        write_line_end(&mut out);
        let ghost p0 = out@;
        write_line_start(&mut out, 'o');
        let o = &self.origin;
        out.append(o.user.as_str());
        push_char(&mut out, ' ');
        push_dec(&mut out, o.session_id);
        push_char(&mut out, ' ');
        push_dec(&mut out, o.session_version);
        push_char(&mut out, ' ');
        out.append(o.nettype.as_str());
        push_char(&mut out, ' ');
        out.append(o.addrtype.as_str());
        push_char(&mut out, ' ');
        out.append(o.unicast_address.as_str());
        write_line_end(&mut out);
        let ghost p1 = out@;
        write_text_line(&mut out, 's', &self.session_name);
        let ghost p2 = out@;
        let ghost h = out@;
        write_opt_line(&mut out, 'i', &self.session_information);
        let ghost q1 = out@;
        write_opt_line(&mut out, 'u', &self.uri);
        let ghost q2 = out@;
        write_opt_line(&mut out, 'e', &self.email_address);
        let ghost q3 = out@;
        write_opt_line(&mut out, 'p', &self.phone_number);
        let ghost q4 = out@;
        write_connection_lines(&mut out, &self.connection_information);
        let ghost q5 = out@;
        write_bandwidth_lines(&mut out, &self.bandwidth_information);
        let ghost q6 = out@;
        write_time_lines(&mut out, &self.time);
        let ghost q7 = out@;
        write_attribute_lines(&mut out, &self.attributes);
        let ghost q8 = out@;
        write_media_lines(&mut out, &self.media);
        proof {
            let l0 = line('v', seq!['0']);
            let l1 = line('o', origin_text(sd.origin));
            let l2 = line('s', sd.session_name);
            lemma_join_one(l0);
            lemma_join_push(seq![l0], l1);
            assert(seq![l0].push(l1) =~= seq![l0, l1]);
            assert(p1 =~= join_lines(seq![l0, l1]));
            lemma_join_push(seq![l0, l1], l2);
            lemma_join_one(l2);
            assert(seq![l0, l1].push(l2) =~= seq![l0, l1, l2]);
            assert(h =~= join_lines(seq![l0, l1, l2]));
            lemma_session_text(sd);
            assert(out@ =~= sdp_text(sd));
        }
        out
    }
}

} // verus!
