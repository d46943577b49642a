//! Reading the SDP text form back into a session description.

use vstd::prelude::*;
use crate::error::{Error, Result};
use crate::scan::line_ranges;
use crate::text::{chars_of, string_of, digits_value, dec_value, is_canonical_dec, all_digits};
use crate::scan::{split_lines, first_index, split_on, find_char, split_ranges, ranges_view, ranges_within, lemma_first_index};
use crate::sdp::{
    NetType, AddrType, MediaType, SdpTransport, Origin, OriginView, ConnectionInformation,
    ConnectionView, Bandwidth, BandwidthView, Attribute, AttributeView, TimeActive,
    MediaDescription, MediaView, opt_view, strings_view, SessionView, TimeView,
    TimeDescription, SessionDescription, opt_conn_view, bandwidths_view, attributes_view, times_view,
    medias_view,
};

verus! {

// ---------------------------------------------------------------------------
// Field values
// ---------------------------------------------------------------------------

/// A canonical decimal numeral that fits in a `u64`.
pub open spec fn parse_u64_text(s: Seq<char>) -> Option<u64> {
    if is_canonical_dec(s) && dec_value(s) <= u64::MAX {
        Some(dec_value(s) as u64)
    } else {
        None
    }
}

/// A canonical decimal numeral that fits in a `u16`.
pub open spec fn parse_u16_text(s: Seq<char>) -> Option<u16> {
    if is_canonical_dec(s) && dec_value(s) <= u16::MAX {
        Some(dec_value(s) as u16)
    } else {
        None
    }
}

pub open spec fn parse_nettype(s: Seq<char>) -> Option<NetType> {
    if s == "IN"@ {
        Some(NetType::IN)
    } else {
        None
    }
}

pub open spec fn parse_addrtype(s: Seq<char>) -> Option<AddrType> {
    if s == "IP4"@ {
        Some(AddrType::IP4)
    } else if s == "IP6"@ {
        Some(AddrType::IP6)
    } else {
        None
    }
}

pub open spec fn parse_media_type(s: Seq<char>) -> Option<MediaType> {
    if s == "audio"@ {
        Some(MediaType::Audio)
    } else if s == "video"@ {
        Some(MediaType::Video)
    } else if s == "text"@ {
        Some(MediaType::Text)
    } else if s == "application"@ {
        Some(MediaType::Application)
    } else if s == "message"@ {
        Some(MediaType::Message)
    } else {
        None
    }
}

pub open spec fn parse_transport(s: Seq<char>) -> Option<SdpTransport> {
    if s == "udp"@ {
        Some(SdpTransport::Udp)
    } else if s == "RTP/AVP"@ {
        Some(SdpTransport::RTPAVP)
    } else if s == "RTP/AVPF"@ {
        Some(SdpTransport::RTPAVPF)
    } else if s == "RTP/SAVP"@ {
        Some(SdpTransport::RTPSAVP)
    } else if s == "RTP/SAVPF"@ {
        Some(SdpTransport::RTPSAVPF)
    } else {
        None
    }
}

/// `o=<username> <sess-id> <sess-version> <nettype> <addrtype> <unicast-address>`
pub open spec fn parse_origin(v: Seq<char>) -> Option<OriginView> {
    let f = split_on(v, ' ');
    if f.len() == 6 {
        match (parse_u64_text(f[1]), parse_u64_text(f[2]), parse_nettype(f[3]), parse_addrtype(f[4])) {
            (Some(id), Some(ver), Some(nt), Some(at)) => Some(
                OriginView {
                    user: f[0],
                    session_id: id,
                    session_version: ver,
                    nettype: nt,
                    addrtype: at,
                    unicast_address: f[5],
                },
            ),
            _ => None,
        }
    } else {
        None
    }
}

/// `c=<nettype> <addrtype> <connection-address>`
pub open spec fn parse_connection(v: Seq<char>) -> Option<ConnectionView> {
    let f = split_on(v, ' ');
    if f.len() == 3 {
        match (parse_nettype(f[0]), parse_addrtype(f[1])) {
            (Some(nt), Some(at)) => Some(ConnectionView { nettype: nt, addrtype: at, address: f[2] }),
            _ => None,
        }
    } else {
        None
    }
}

/// `b=<bwtype>:<bandwidth>`
pub open spec fn parse_bandwidth(v: Seq<char>) -> Option<BandwidthView> {
    match first_index(v, ':') {
        Some(i) => match parse_u64_text(v.skip(i + 1)) {
            Some(b) => Some(BandwidthView { bwtype: v.take(i), bandwidth: b }),
            None => None,
        },
        None => None,
    }
}

/// `a=<attribute>` or `a=<attribute>:<value>`
pub open spec fn parse_attribute(v: Seq<char>) -> AttributeView {
    match first_index(v, ':') {
        Some(i) => AttributeView { name: v.take(i), value: Some(v.skip(i + 1)) },
        None => AttributeView { name: v, value: None },
    }
}

/// `t=<start-time> <stop-time>`
pub open spec fn parse_time(v: Seq<char>) -> Option<TimeActive> {
    let f = split_on(v, ' ');
    if f.len() == 2 {
        match (parse_u64_text(f[0]), parse_u64_text(f[1])) {
            (Some(a), Some(b)) => Some(TimeActive { start_time: a, stop_time: b }),
            _ => None,
        }
    } else {
        None
    }
}

/// `<port>` or `<port>/<number of ports>`
pub open spec fn parse_port(s: Seq<char>) -> Option<(u16, Option<u16>)> {
    match first_index(s, '/') {
        Some(i) => match (parse_u16_text(s.take(i)), parse_u16_text(s.skip(i + 1))) {
            (Some(p), Some(n)) => Some((p, Some(n))),
            _ => None,
        },
        None => match parse_u16_text(s) {
            Some(p) => Some((p, None)),
            None => None,
        },
    }
}

/// What an `m=<media> <port> <proto> <fmt> ...` line holds.
pub struct MediaLineView {
    pub media_type: MediaType,
    pub port: u16,
    pub number_of_ports: Option<u16>,
    pub proto: SdpTransport,
    pub media_formats: Seq<Seq<char>>,
}

pub open spec fn parse_media_line(v: Seq<char>) -> Option<MediaLineView> {
    let f = split_on(v, ' ');
    if f.len() >= 3 {
        match (parse_media_type(f[0]), parse_port(f[1]), parse_transport(f[2])) {
            (Some(mt), Some(pn), Some(pr)) => Some(
                MediaLineView {
                    media_type: mt,
                    port: pn.0,
                    number_of_ports: pn.1,
                    proto: pr,
                    media_formats: f.skip(3),
                },
            ),
            _ => None,
        }
    } else {
        None
    }
}

// ---------------------------------------------------------------------------
// Executable field readers over `v[from..to]`.
// ---------------------------------------------------------------------------

/// Whether `v[from..to]` spells `lit`.
pub fn slice_is(v: &Vec<char>, from: usize, to: usize, lit: &str) -> (r: bool)
    requires
        from <= to <= v.len(),
    ensures
        r == (v@.subrange(from as int, to as int) == lit@),
{
    let l = chars_of(lit);
    if to - from != l.len() {
        return false;
    }
    let mut i: usize = 0;
    while i < l.len()
        invariant
            from <= to <= v.len(),
            to - from == l.len(),
            i <= l.len(),
            l@ == lit@,
            forall|k: int| 0 <= k < i ==> v@[from + k] == l@[k],
        decreases l.len() - i,
    {
        if v[from + i] != l[i] {
            assert(v@.subrange(from as int, to as int)[i as int] != lit@[i as int]);
            return false;
        }
        i = i + 1;
    }
    assert(v@.subrange(from as int, to as int) =~= lit@);
    true
}

pub fn read_u64(v: &Vec<char>, from: usize, to: usize) -> (r: Option<u64>)
    requires
        from <= to <= v.len(),
    ensures
        r == parse_u64_text(v@.subrange(from as int, to as int)),
{
    let ghost s = v@.subrange(from as int, to as int);
    if from == to || (to - from > 1 && v[from] == '0') {
        return None;
    }
    match digits_value(v, from, to) {
        Some(n) => Some(n),
        None => None,
    }
}

pub fn read_u16(v: &Vec<char>, from: usize, to: usize) -> (r: Option<u16>)
    requires
        from <= to <= v.len(),
    ensures
        r == parse_u16_text(v@.subrange(from as int, to as int)),
{
    match read_u64(v, from, to) {
        Some(n) => if n <= 65535 {
            Some(n as u16)
        } else {
            None
        },
        None => {
            let ghost s = v@.subrange(from as int, to as int);
            None
        },
    }
}

pub fn read_nettype(v: &Vec<char>, from: usize, to: usize) -> (r: Option<NetType>)
    requires
        from <= to <= v.len(),
    ensures
        r == parse_nettype(v@.subrange(from as int, to as int)),
{
    if slice_is(v, from, to, "IN") {
        Some(NetType::IN)
    } else {
        None
    }
}

pub fn read_addrtype(v: &Vec<char>, from: usize, to: usize) -> (r: Option<AddrType>)
    requires
        from <= to <= v.len(),
    ensures
        r == parse_addrtype(v@.subrange(from as int, to as int)),
{
    if slice_is(v, from, to, "IP4") {
        Some(AddrType::IP4)
    } else if slice_is(v, from, to, "IP6") {
        Some(AddrType::IP6)
    } else {
        None
    }
}

pub fn read_media_type(v: &Vec<char>, from: usize, to: usize) -> (r: Option<MediaType>)
    requires
        from <= to <= v.len(),
    ensures
        r == parse_media_type(v@.subrange(from as int, to as int)),
{
    if slice_is(v, from, to, "audio") {
        Some(MediaType::Audio)
    } else if slice_is(v, from, to, "video") {
        Some(MediaType::Video)
    } else if slice_is(v, from, to, "text") {
        Some(MediaType::Text)
    } else if slice_is(v, from, to, "application") {
        Some(MediaType::Application)
    } else if slice_is(v, from, to, "message") {
        Some(MediaType::Message)
    } else {
        None
    }
}

pub fn read_transport(v: &Vec<char>, from: usize, to: usize) -> (r: Option<SdpTransport>)
    requires
        from <= to <= v.len(),
    ensures
        r == parse_transport(v@.subrange(from as int, to as int)),
{
    if slice_is(v, from, to, "udp") {
        Some(SdpTransport::Udp)
    } else if slice_is(v, from, to, "RTP/AVP") {
        Some(SdpTransport::RTPAVP)
    } else if slice_is(v, from, to, "RTP/AVPF") {
        Some(SdpTransport::RTPAVPF)
    } else if slice_is(v, from, to, "RTP/SAVP") {
        Some(SdpTransport::RTPSAVP)
    } else if slice_is(v, from, to, "RTP/SAVPF") {
        Some(SdpTransport::RTPSAVPF)
    } else {
        None
    }
}


/// The text of each range, as strings.
fn strings_of(v: &Vec<char>, rs: &Vec<(usize, usize)>, from: usize) -> (r: Vec<String>)
    requires
        from <= rs.len(),
        ranges_within(rs@, 0, v.len() as int),
    ensures
        strings_view(r@) == ranges_view(v@, rs@).skip(from as int),
{
    let mut out: Vec<String> = Vec::new();
    let mut i = from;
    while i < rs.len()
        invariant
            from <= i <= rs.len(),
            ranges_within(rs@, 0, v.len() as int),
            strings_view(out@) == ranges_view(v@, rs@).subrange(from as int, i as int),
        decreases rs.len() - i,
    {
        let (a, b) = rs[i];
        assert(0 <= rs@[i as int].0 <= rs@[i as int].1 <= v.len());
        let s = string_of(v, a, b);
        let ghost before = out@;
        out.push(s);
        assert(strings_view(out@) =~= strings_view(before).push(s@));
        assert(strings_view(out@) =~= ranges_view(v@, rs@).subrange(from as int, i + 1));
        i = i + 1;
    }
    assert(ranges_view(v@, rs@).subrange(from as int, rs.len() as int) =~= ranges_view(v@, rs@).skip(from as int));
    out
}

pub fn read_origin(v: &Vec<char>, from: usize, to: usize) -> (r: Option<Origin>)
    requires
        from <= to <= v.len(),
    ensures
        match parse_origin(v@.subrange(from as int, to as int)) {
            Some(o) => r matches Some(x) && x@ == o,
            None => r is None,
        },
{
    let rs = split_ranges(v, from, to, ' ');
    let ghost f = split_on(v@.subrange(from as int, to as int), ' ');
    if rs.len() != 6 {
        return None;
    }
    assert(forall|k: int| 0 <= k < 6 ==> #[trigger] f[k] == v@.subrange(rs@[k].0 as int, rs@[k].1 as int));
    assert(ranges_within(rs@, from as int, to as int));
    assert(from <= rs@[1].0 <= rs@[1].1 <= to);
    assert(from <= rs@[2].0 <= rs@[2].1 <= to);
    assert(from <= rs@[3].0 <= rs@[3].1 <= to);
    assert(from <= rs@[4].0 <= rs@[4].1 <= to);
    assert(from <= rs@[0].0 <= rs@[0].1 <= to);
    assert(from <= rs@[5].0 <= rs@[5].1 <= to);
    let id = read_u64(v, rs[1].0, rs[1].1);
    let ver = read_u64(v, rs[2].0, rs[2].1);
    let nt = read_nettype(v, rs[3].0, rs[3].1);
    let at = read_addrtype(v, rs[4].0, rs[4].1);
    match (id, ver, nt, at) {
        (Some(id), Some(ver), Some(nt), Some(at)) => {
            let user = string_of(v, rs[0].0, rs[0].1);
            let addr = string_of(v, rs[5].0, rs[5].1);
            Some(
                Origin {
                    user,
                    session_id: id,
                    session_version: ver,
                    nettype: nt,
                    addrtype: at,
                    unicast_address: addr,
                },
            )
        },
        _ => None,
    }
}

pub fn read_connection(v: &Vec<char>, from: usize, to: usize) -> (r: Option<ConnectionInformation>)
    requires
        from <= to <= v.len(),
    ensures
        match parse_connection(v@.subrange(from as int, to as int)) {
            Some(c) => r matches Some(x) && x@ == c,
            None => r is None,
        },
{
    let rs = split_ranges(v, from, to, ' ');
    let ghost f = split_on(v@.subrange(from as int, to as int), ' ');
    if rs.len() != 3 {
        return None;
    }
    assert(forall|k: int| 0 <= k < 3 ==> #[trigger] f[k] == v@.subrange(rs@[k].0 as int, rs@[k].1 as int));
    assert(from <= rs@[0].0 <= rs@[0].1 <= to);
    assert(from <= rs@[1].0 <= rs@[1].1 <= to);
    assert(from <= rs@[2].0 <= rs@[2].1 <= to);
    let nt = read_nettype(v, rs[0].0, rs[0].1);
    let at = read_addrtype(v, rs[1].0, rs[1].1);
    match (nt, at) {
        (Some(nt), Some(at)) => {
            let addr = string_of(v, rs[2].0, rs[2].1);
            Some(ConnectionInformation { nettype: nt, addrtype: at, conection_address: addr })
        },
        _ => None,
    }
}

pub fn read_bandwidth(v: &Vec<char>, from: usize, to: usize) -> (r: Option<Bandwidth>)
    requires
        from <= to <= v.len(),
    ensures
        match parse_bandwidth(v@.subrange(from as int, to as int)) {
            Some(b) => r matches Some(x) && x@ == b,
            None => r is None,
        },
{
    let ghost s = v@.subrange(from as int, to as int);
    match find_char(v, from, to, ':') {
        Some(k) => {
            assert(s.skip(k - from + 1) =~= v@.subrange(k + 1, to as int));
            assert(s.take(k - from) =~= v@.subrange(from as int, k as int));
            match read_u64(v, k + 1, to) {
                Some(b) => Some(Bandwidth { bwtype: string_of(v, from, k), bandwidth: b }),
                None => None,
            }
        },
        None => None,
    }
}

pub fn read_attribute(v: &Vec<char>, from: usize, to: usize) -> (r: Attribute)
    requires
        from <= to <= v.len(),
    ensures
        r@ == parse_attribute(v@.subrange(from as int, to as int)),
{
    let ghost s = v@.subrange(from as int, to as int);
    match find_char(v, from, to, ':') {
        Some(k) => {
            assert(s.skip(k - from + 1) =~= v@.subrange(k + 1, to as int));
            assert(s.take(k - from) =~= v@.subrange(from as int, k as int));
            Attribute { name: string_of(v, from, k), value: Some(string_of(v, k + 1, to)) }
        },
        None => Attribute { name: string_of(v, from, to), value: None },
    }
}

pub fn read_time(v: &Vec<char>, from: usize, to: usize) -> (r: Option<TimeActive>)
    requires
        from <= to <= v.len(),
    ensures
        r == parse_time(v@.subrange(from as int, to as int)),
{
    let rs = split_ranges(v, from, to, ' ');
    let ghost f = split_on(v@.subrange(from as int, to as int), ' ');
    if rs.len() != 2 {
        return None;
    }
    assert(forall|k: int| 0 <= k < 2 ==> #[trigger] f[k] == v@.subrange(rs@[k].0 as int, rs@[k].1 as int));
    assert(from <= rs@[0].0 <= rs@[0].1 <= to);
    assert(from <= rs@[1].0 <= rs@[1].1 <= to);
    let a = read_u64(v, rs[0].0, rs[0].1);
    let b = read_u64(v, rs[1].0, rs[1].1);
    match (a, b) {
        (Some(a), Some(b)) => Some(TimeActive { start_time: a, stop_time: b }),
        _ => None,
    }
}

pub fn read_port(v: &Vec<char>, from: usize, to: usize) -> (r: Option<(u16, Option<u16>)>)
    requires
        from <= to <= v.len(),
    ensures
        r == parse_port(v@.subrange(from as int, to as int)),
{
    let ghost s = v@.subrange(from as int, to as int);
    match find_char(v, from, to, '/') {
        Some(k) => {
            assert(s.skip(k - from + 1) =~= v@.subrange(k + 1, to as int));
            assert(s.take(k - from) =~= v@.subrange(from as int, k as int));
            match (read_u16(v, from, k), read_u16(v, k + 1, to)) {
                (Some(p), Some(n)) => Some((p, Some(n))),
                _ => None,
            }
        },
        None => match read_u16(v, from, to) {
            Some(p) => Some((p, None)),
            None => None,
        },
    }
}

/// The media section that an `m=` line opens, before any of its other lines.
pub open spec fn media_from_line(l: MediaLineView) -> MediaView {
    MediaView {
        media_type: l.media_type,
        port: l.port,
        number_of_ports: l.number_of_ports,
        proto: l.proto,
        media_formats: l.media_formats,
        title: None,
        connection: None,
        bandwidths: Seq::empty(),
        attributes: Seq::empty(),
    }
}

pub fn read_media_line(v: &Vec<char>, from: usize, to: usize) -> (r: Option<MediaDescription>)
    requires
        from <= to <= v.len(),
    ensures
        match parse_media_line(v@.subrange(from as int, to as int)) {
            Some(l) => r matches Some(x) && x@ == media_from_line(l),
            None => r is None,
        },
{
    let rs = split_ranges(v, from, to, ' ');
    let ghost f = split_on(v@.subrange(from as int, to as int), ' ');
    if rs.len() < 3 {
        return None;
    }
    assert(forall|k: int| 0 <= k < 3 ==> #[trigger] f[k] == v@.subrange(rs@[k].0 as int, rs@[k].1 as int));
    assert(from <= rs@[0].0 <= rs@[0].1 <= to);
    assert(from <= rs@[1].0 <= rs@[1].1 <= to);
    assert(from <= rs@[2].0 <= rs@[2].1 <= to);
    let mt = read_media_type(v, rs[0].0, rs[0].1);
    let pn = read_port(v, rs[1].0, rs[1].1);
    let pr = read_transport(v, rs[2].0, rs[2].1);
    match (mt, pn, pr) {
        (Some(mt), Some(pn), Some(pr)) => {
            assert(ranges_within(rs@, 0, v.len() as int));
            let formats = strings_of(v, &rs, 3);
            let m = MediaDescription {
                media_type: mt,
                port: pn.0,
                number_of_ports: pn.1,
                proto: pr,
                media_formats: formats,
                title: None,
                connection_information: None,
                bandwidth_information: Vec::new(),
                attributes: Vec::new(),
            };
            assert(m@.bandwidths =~= Seq::<BandwidthView>::empty());
            assert(m@.attributes =~= Seq::<AttributeView>::empty());
            Some(m)
        },
        _ => None,
    }
}


// ---------------------------------------------------------------------------
// The line structure of a session description (RFC 4566 section 5):
//   v= o= s= [i=] [u=] [e=] [p=] [c=] b=* (t= r=*)+ a=* (m= [i=] [c=] b=* a=*)*
// ---------------------------------------------------------------------------

pub open spec fn is_line(l: Seq<char>, t: char) -> bool {
    l.len() >= 2 && l[0] == t && l[1] == '='
}

pub open spec fn has_line(ls: Seq<Seq<char>>, p: int, t: char) -> bool {
    0 <= p < ls.len() && is_line(ls[p], t)
}

pub open spec fn value_of(l: Seq<char>) -> Seq<char> {
    l.skip(2)
}

/// An optional `<t>=` text line at `p`, and the position after it.
pub open spec fn opt_text_at(ls: Seq<Seq<char>>, p: int, t: char) -> (Option<Seq<char>>, int) {
    if has_line(ls, p, t) {
        (Some(value_of(ls[p])), p + 1)
    } else {
        (None, p)
    }
}

pub open spec fn connection_at(ls: Seq<Seq<char>>, p: int) -> Option<(Option<ConnectionView>, int)> {
    if has_line(ls, p, 'c') {
        match parse_connection(value_of(ls[p])) {
            Some(c) => Some((Some(c), p + 1)),
            None => None,
        }
    } else {
        Some((None, p))
    }
}

pub open spec fn bandwidths_at(ls: Seq<Seq<char>>, p: int) -> Option<(Seq<BandwidthView>, int)>
    decreases ls.len() - p,
{
    if has_line(ls, p, 'b') {
        match parse_bandwidth(value_of(ls[p])) {
            Some(b) => match bandwidths_at(ls, p + 1) {
                Some((bs, e)) => Some((seq![b] + bs, e)),
                None => None,
            },
            None => None,
        }
    } else {
        Some((Seq::empty(), p))
    }
}

pub open spec fn attributes_at(ls: Seq<Seq<char>>, p: int) -> (Seq<AttributeView>, int)
    decreases ls.len() - p,
{
    if has_line(ls, p, 'a') {
        let (rest, e) = attributes_at(ls, p + 1);
        (seq![parse_attribute(value_of(ls[p]))] + rest, e)
    } else {
        (Seq::empty(), p)
    }
}

pub open spec fn repeats_at(ls: Seq<Seq<char>>, p: int) -> (Seq<Seq<char>>, int)
    decreases ls.len() - p,
{
    if has_line(ls, p, 'r') {
        let (rest, e) = repeats_at(ls, p + 1);
        (seq![value_of(ls[p])] + rest, e)
    } else {
        (Seq::empty(), p)
    }
}

pub proof fn lemma_repeats_at_end(ls: Seq<Seq<char>>, p: int)
    ensures
        repeats_at(ls, p).1 >= p,
        p <= ls.len() ==> repeats_at(ls, p).1 <= ls.len(),
    decreases ls.len() - p,
{
    if has_line(ls, p, 'r') {
        lemma_repeats_at_end(ls, p + 1);
    }
}

pub proof fn lemma_attributes_at_end(ls: Seq<Seq<char>>, p: int)
    ensures
        attributes_at(ls, p).1 >= p,
        p <= ls.len() ==> attributes_at(ls, p).1 <= ls.len(),
    decreases ls.len() - p,
{
    if has_line(ls, p, 'a') {
        lemma_attributes_at_end(ls, p + 1);
    }
}

pub proof fn lemma_bandwidths_at_end(ls: Seq<Seq<char>>, p: int)
    ensures
        bandwidths_at(ls, p) matches Some((_, e)) ==> e >= p && (p <= ls.len() ==> e <= ls.len()),
    decreases ls.len() - p,
{
    if has_line(ls, p, 'b') {
        lemma_bandwidths_at_end(ls, p + 1);
    }
}

pub open spec fn times_at(ls: Seq<Seq<char>>, p: int) -> Option<(Seq<TimeView>, int)>
    decreases ls.len() - p,
{
    if has_line(ls, p, 't') {
        match parse_time(value_of(ls[p])) {
            Some(ta) => {
                let (rs, q) = repeats_at(ls, p + 1);
                proof {
                    lemma_repeats_at_end(ls, p + 1);
                    assert(p + 1 <= q <= ls.len());
                }
                match times_at(ls, q) {
                    Some((ts, e)) => Some((seq![TimeView { time_active: ta, repeat_times: rs }] + ts, e)),
                    None => None,
                }
            },
            None => None,
        }
    } else {
        Some((Seq::empty(), p))
    }
}

/// The media section opened by the `m=` line at `p`, and the position after it.
pub open spec fn media_section_at(ls: Seq<Seq<char>>, p: int) -> Option<(MediaView, int)> {
    if has_line(ls, p, 'm') {
        match parse_media_line(value_of(ls[p])) {
            Some(l) => {
                let (title, q1) = opt_text_at(ls, p + 1, 'i');
                match connection_at(ls, q1) {
                    Some((c, q2)) => match bandwidths_at(ls, q2) {
                        Some((bs, q3)) => {
                            let (attrs, q4) = attributes_at(ls, q3);
                            Some(
                                (
                                    MediaView {
                                        media_type: l.media_type,
                                        port: l.port,
                                        number_of_ports: l.number_of_ports,
                                        proto: l.proto,
                                        media_formats: l.media_formats,
                                        title: title,
                                        connection: c,
                                        bandwidths: bs,
                                        attributes: attrs,
                                    },
                                    q4,
                                ),
                            )
                        },
                        None => None,
                    },
                    None => None,
                }
            },
            None => None,
        }
    } else {
        None
    }
}

pub proof fn lemma_media_section_at_end(ls: Seq<Seq<char>>, p: int)
    ensures
        media_section_at(ls, p) matches Some((_, e)) ==> e > p && e <= ls.len(),
{
    if has_line(ls, p, 'm') {
        if let Some(l) = parse_media_line(value_of(ls[p])) {
            let (title, q1) = opt_text_at(ls, p + 1, 'i');
            if let Some((c, q2)) = connection_at(ls, q1) {
                lemma_bandwidths_at_end(ls, q2);
                if let Some((bs, q3)) = bandwidths_at(ls, q2) {
                    lemma_attributes_at_end(ls, q3);
                }
            }
        }
    }
}

pub open spec fn medias_at(ls: Seq<Seq<char>>, p: int) -> Option<(Seq<MediaView>, int)>
    decreases ls.len() - p,
{
    if has_line(ls, p, 'm') {
        match media_section_at(ls, p) {
            Some((m, q)) => {
                proof {
                    lemma_media_section_at_end(ls, p);
                    assert(p < q <= ls.len());
                }
                match medias_at(ls, q) {
                    Some((ms, e)) => Some((seq![m] + ms, e)),
                    None => None,
                }
            },
            None => None,
        }
    } else {
        Some((Seq::empty(), p))
    }
}

/// The session description that the lines `ls` spell, if they spell one.
pub open spec fn session_from_lines(ls: Seq<Seq<char>>) -> Option<SessionView> {
    if ls.len() >= 3 && ls[0] == seq!['v', '=', '0'] && has_line(ls, 1, 'o') && has_line(ls, 2, 's') {
        match parse_origin(value_of(ls[1])) {
            Some(o) => {
                let (info, p1) = opt_text_at(ls, 3, 'i');
                let (uri, p2) = opt_text_at(ls, p1, 'u');
                let (email, p3) = opt_text_at(ls, p2, 'e');
                let (phone, p4) = opt_text_at(ls, p3, 'p');
                match connection_at(ls, p4) {
                    Some((c, p5)) => match bandwidths_at(ls, p5) {
                        Some((bs, p6)) => match times_at(ls, p6) {
                            Some((ts, p7)) => {
                                let (attrs, p8) = attributes_at(ls, p7);
                                match medias_at(ls, p8) {
                                    Some((ms, p9)) => if ts.len() >= 1 && p9 == ls.len() {
                                        Some(
                                            SessionView {
                                                origin: o,
                                                session_name: value_of(ls[2]),
                                                session_information: info,
                                                uri: uri,
                                                email_address: email,
                                                phone_number: phone,
                                                connection: c,
                                                bandwidths: bs,
                                                time: ts,
                                                attributes: attrs,
                                                media: ms,
                                            },
                                        )
                                    } else {
                                        None
                                    },
                                    None => None,
                                }
                            },
                            None => None,
                        },
                        None => None,
                    },
                    None => None,
                }
            },
            None => None,
        }
    } else {
        None
    }
}

/// The session description that the text `s` spells, if it spells one.
pub open spec fn parse_sdp(s: Seq<char>) -> Option<SessionView> {
    match split_lines(s) {
        Some(ls) => session_from_lines(ls),
        None => None,
    }
}


// ---------------------------------------------------------------------------
// Executable reading of the line structure. The lines are index ranges `rs` into the
// characters `v`.
// ---------------------------------------------------------------------------

pub open spec fn lines_of(v: Seq<char>, rs: Seq<(usize, usize)>) -> Seq<Seq<char>> {
    ranges_view(v, rs)
}

fn line_has(v: &Vec<char>, rs: &Vec<(usize, usize)>, p: usize, t: char) -> (r: bool)
    requires
        ranges_within(rs@, 0, v.len() as int),
    ensures
        r == has_line(lines_of(v@, rs@), p as int, t),
{
    if p >= rs.len() {
        return false;
    }
    let (a, b) = rs[p];
    assert(0 <= rs@[p as int].0 <= rs@[p as int].1 <= v.len());
    let ghost l = v@.subrange(a as int, b as int);
    if b - a >= 2 && v[a] == t && v[a + 1] == '=' {
        assert(l[0] == t && l[1] == '=');
        true
    } else {
        proof {
            if l.len() >= 2 {
                assert(l[0] == v@[a as int] && l[1] == v@[a + 1]);
            }
        }
        false
    }
}

/// The range of the value of line `p` (after its `<t>=`).
fn value_range(v: &Vec<char>, rs: &Vec<(usize, usize)>, p: usize, t: char) -> (r: (usize, usize))
    requires
        ranges_within(rs@, 0, v.len() as int),
        has_line(lines_of(v@, rs@), p as int, t),
    ensures
        r.0 <= r.1 <= v.len(),
        v@.subrange(r.0 as int, r.1 as int) == value_of(lines_of(v@, rs@)[p as int]),
{
    let (a, b) = rs[p];
    assert(0 <= rs@[p as int].0 <= rs@[p as int].1 <= v.len());
    assert(v@.subrange(a as int, b as int).skip(2) =~= v@.subrange(a + 2, b as int));
    (a + 2, b)
}

fn read_opt_text(v: &Vec<char>, rs: &Vec<(usize, usize)>, p: usize, t: char) -> (r: (Option<String>, usize))
    requires
        ranges_within(rs@, 0, v.len() as int),
        p <= rs.len(),
    ensures
        (opt_view(r.0), r.1 as int) == opt_text_at(lines_of(v@, rs@), p as int, t),
        r.1 <= rs.len(),
{
    if line_has(v, rs, p, t) {
        let (a, b) = value_range(v, rs, p, t);
        (Some(string_of(v, a, b)), p + 1)
    } else {
        (None, p)
    }
}

fn read_connection_at(v: &Vec<char>, rs: &Vec<(usize, usize)>, p: usize) -> (r: Option<(Option<ConnectionInformation>, usize)>)
    requires
        ranges_within(rs@, 0, v.len() as int),
        p <= rs.len(),
    ensures
        match connection_at(lines_of(v@, rs@), p as int) {
            Some((c, q)) => r matches Some((x, k)) && opt_conn_view(x) == c && k == q && k <= rs.len(),
            None => r is None,
        },
{
    if line_has(v, rs, p, 'c') {
        let (a, b) = value_range(v, rs, p, 'c');
        match read_connection(v, a, b) {
            Some(c) => Some((Some(c), p + 1)),
            None => None,
        }
    } else {
        Some((None, p))
    }
}

fn read_bandwidths_at(v: &Vec<char>, rs: &Vec<(usize, usize)>, p: usize) -> (r: Option<(Vec<Bandwidth>, usize)>)
    requires
        ranges_within(rs@, 0, v.len() as int),
        p <= rs.len(),
    ensures
        match bandwidths_at(lines_of(v@, rs@), p as int) {
            Some((bs, q)) => r matches Some((x, k)) && bandwidths_view(x@) == bs && k == q && k <= rs.len(),
            None => r is None,
        },
{
    let ghost ls = lines_of(v@, rs@);
    let mut out: Vec<Bandwidth> = Vec::new();
    let mut q = p;
    assert(bandwidths_view(out@) =~= Seq::<BandwidthView>::empty());
    loop
        invariant
            ranges_within(rs@, 0, v.len() as int),
            ls == lines_of(v@, rs@),
            p <= q <= rs.len(),
            bandwidths_at(ls, p as int) == match bandwidths_at(ls, q as int) {
                Some((bs, e)) => Some((bandwidths_view(out@) + bs, e)),
                None => None::<(Seq<BandwidthView>, int)>,
            },
        decreases rs.len() - q,
    {
        if !line_has(v, rs, q, 'b') {
            assert(bandwidths_view(out@) + Seq::<BandwidthView>::empty() =~= bandwidths_view(out@));
            return Some((out, q));
        }
        let (a, b) = value_range(v, rs, q, 'b');
        match read_bandwidth(v, a, b) {
            Some(bw) => {
                let ghost before = out@;
                out.push(bw);
                proof {
                    assert(bandwidths_view(out@) =~= bandwidths_view(before).push(bw@));
                    match bandwidths_at(ls, q + 1) {
                        Some((bs, e)) => {
                            assert(bandwidths_view(before) + (seq![bw@] + bs) =~= bandwidths_view(out@) + bs);
                        },
                        None => {},
                    }
                }
                q = q + 1;
            },
            None => {
                return None;
            },
        }
    }
}

fn read_attributes_at(v: &Vec<char>, rs: &Vec<(usize, usize)>, p: usize) -> (r: (Vec<Attribute>, usize))
    requires
        ranges_within(rs@, 0, v.len() as int),
        p <= rs.len(),
    ensures
        (attributes_view(r.0@), r.1 as int) == attributes_at(lines_of(v@, rs@), p as int),
        r.1 <= rs.len(),
{
    let ghost ls = lines_of(v@, rs@);
    let mut out: Vec<Attribute> = Vec::new();
    let mut q = p;
    assert(attributes_view(out@) =~= Seq::<AttributeView>::empty());
    loop
        invariant
            ranges_within(rs@, 0, v.len() as int),
            ls == lines_of(v@, rs@),
            p <= q <= rs.len(),
            attributes_at(ls, p as int) == (attributes_view(out@) + attributes_at(ls, q as int).0, attributes_at(ls, q as int).1),
        decreases rs.len() - q,
    {
        if !line_has(v, rs, q, 'a') {
            assert(attributes_view(out@) + Seq::<AttributeView>::empty() =~= attributes_view(out@));
            return (out, q);
        }
        let (a, b) = value_range(v, rs, q, 'a');
        let at = read_attribute(v, a, b);
        let ghost before = out@;
        out.push(at);
        proof {
            assert(attributes_view(out@) =~= attributes_view(before).push(at@));
            let rest = attributes_at(ls, q + 1).0;
            assert(attributes_view(before) + (seq![at@] + rest) =~= attributes_view(out@) + rest);
        }
        q = q + 1;
    }
}

fn read_repeats_at(v: &Vec<char>, rs: &Vec<(usize, usize)>, p: usize) -> (r: (Vec<String>, usize))
    requires
        ranges_within(rs@, 0, v.len() as int),
        p <= rs.len(),
    ensures
        (strings_view(r.0@), r.1 as int) == repeats_at(lines_of(v@, rs@), p as int),
        r.1 <= rs.len(),
{
    let ghost ls = lines_of(v@, rs@);
    let mut out: Vec<String> = Vec::new();
    let mut q = p;
    assert(strings_view(out@) =~= Seq::<Seq<char>>::empty());
    loop
        invariant
            ranges_within(rs@, 0, v.len() as int),
            ls == lines_of(v@, rs@),
            p <= q <= rs.len(),
            repeats_at(ls, p as int) == (strings_view(out@) + repeats_at(ls, q as int).0, repeats_at(ls, q as int).1),
        decreases rs.len() - q,
    {
        if !line_has(v, rs, q, 'r') {
            assert(strings_view(out@) + Seq::<Seq<char>>::empty() =~= strings_view(out@));
            return (out, q);
        }
        let (a, b) = value_range(v, rs, q, 'r');
        let x = string_of(v, a, b);
        let ghost before = out@;
        out.push(x);
        proof {
            assert(strings_view(out@) =~= strings_view(before).push(x@));
            let rest = repeats_at(ls, q + 1).0;
            assert(strings_view(before) + (seq![x@] + rest) =~= strings_view(out@) + rest);
        }
        q = q + 1;
    }
}

fn read_times_at(v: &Vec<char>, rs: &Vec<(usize, usize)>, p: usize) -> (r: Option<(Vec<TimeDescription>, usize)>)
    requires
        ranges_within(rs@, 0, v.len() as int),
        p <= rs.len(),
    ensures
        match times_at(lines_of(v@, rs@), p as int) {
            Some((ts, q)) => r matches Some((x, k)) && times_view(x@) == ts && k == q && k <= rs.len(),
            None => r is None,
        },
{
    let ghost ls = lines_of(v@, rs@);
    let mut out: Vec<TimeDescription> = Vec::new();
    let mut q = p;
    assert(times_view(out@) =~= Seq::<TimeView>::empty());
    loop
        invariant
            ranges_within(rs@, 0, v.len() as int),
            ls == lines_of(v@, rs@),
            p <= q <= rs.len(),
            times_at(ls, p as int) == match times_at(ls, q as int) {
                Some((ts, e)) => Some((times_view(out@) + ts, e)),
                None => None::<(Seq<TimeView>, int)>,
            },
        decreases rs.len() - q,
    {
        if !line_has(v, rs, q, 't') {
            assert(times_view(out@) + Seq::<TimeView>::empty() =~= times_view(out@));
            return Some((out, q));
        }
        let (a, b) = value_range(v, rs, q, 't');
        match read_time(v, a, b) {
            Some(ta) => {
                let (reps, q2) = read_repeats_at(v, rs, q + 1);
                let td = TimeDescription { time_active: ta, repeat_times: reps };
                let ghost before = out@;
                out.push(td);
                proof {
                    lemma_repeats_at_end(ls, q + 1);
                    assert(times_view(out@) =~= times_view(before).push(td@));
                    match times_at(ls, q2 as int) {
                        Some((ts, e)) => {
                            assert(times_view(before) + (seq![td@] + ts) =~= times_view(out@) + ts);
                        },
                        None => {},
                    }
                }
                q = q2;
            },
            None => {
                return None;
            },
        }
    }
}

fn read_media_section_at(v: &Vec<char>, rs: &Vec<(usize, usize)>, p: usize) -> (r: Option<(MediaDescription, usize)>)
    requires
        ranges_within(rs@, 0, v.len() as int),
        has_line(lines_of(v@, rs@), p as int, 'm'),
    ensures
        match media_section_at(lines_of(v@, rs@), p as int) {
            Some((m, q)) => r matches Some((x, k)) && x@ == m && k == q && k <= rs.len(),
            None => r is None,
        },
{
    assert(lines_of(v@, rs@).len() == rs.len());
    let (a, b) = value_range(v, rs, p, 'm');
    match read_media_line(v, a, b) {
        Some(mut m) => {
            let (title, q1) = read_opt_text(v, rs, p + 1, 'i');
            match read_connection_at(v, rs, q1) {
                Some((c, q2)) => match read_bandwidths_at(v, rs, q2) {
                    Some((bws, q3)) => {
                        let (attrs, q4) = read_attributes_at(v, rs, q3);
                        m.title = title;
                        m.connection_information = c;
                        m.bandwidth_information = bws;
                        m.attributes = attrs;
                        Some((m, q4))
                    },
                    None => None,
                },
                None => None,
            }
        },
        None => None,
    }
}

fn read_medias_at(v: &Vec<char>, rs: &Vec<(usize, usize)>, p: usize) -> (r: Option<(Vec<MediaDescription>, usize)>)
    requires
        ranges_within(rs@, 0, v.len() as int),
        p <= rs.len(),
    ensures
        match medias_at(lines_of(v@, rs@), p as int) {
            Some((ms, q)) => r matches Some((x, k)) && medias_view(x@) == ms && k == q && k <= rs.len(),
            None => r is None,
        },
{
    let ghost ls = lines_of(v@, rs@);
    let mut out: Vec<MediaDescription> = Vec::new();
    let mut q = p;
    assert(medias_view(out@) =~= Seq::<MediaView>::empty());
    loop
        invariant
            ranges_within(rs@, 0, v.len() as int),
            ls == lines_of(v@, rs@),
            p <= q <= rs.len(),
            medias_at(ls, p as int) == match medias_at(ls, q as int) {
                Some((ms, e)) => Some((medias_view(out@) + ms, e)),
                None => None::<(Seq<MediaView>, int)>,
            },
        decreases rs.len() - q,
    {
        if !line_has(v, rs, q, 'm') {
            assert(medias_view(out@) + Seq::<MediaView>::empty() =~= medias_view(out@));
            return Some((out, q));
        }
        match read_media_section_at(v, rs, q) {
            Some((m, q2)) => {
                let ghost before = out@;
                let ghost mv = m@;
                out.push(m);
                proof {
                    lemma_media_section_at_end(ls, q as int);
                    assert(medias_view(out@) =~= medias_view(before).push(mv));
                    match medias_at(ls, q2 as int) {
                        Some((ms, e)) => {
                            assert(medias_view(before) + (seq![mv] + ms) =~= medias_view(out@) + ms);
                        },
                        None => {},
                    }
                }
                q = q2;
            },
            None => {
                return None;
            },
        }
    }
}

/// Reads a session description from the lines `rs` of `v`.
fn read_session(v: &Vec<char>, rs: &Vec<(usize, usize)>) -> (r: Option<SessionDescription>)
    requires
        ranges_within(rs@, 0, v.len() as int),
    ensures
        match session_from_lines(lines_of(v@, rs@)) {
            Some(sd) => r matches Some(x) && x@ == sd,
            None => r is None,
        },
{
    let ghost ls = lines_of(v@, rs@);
    if rs.len() < 3 {
        return None;
    }
    let (a0, b0) = rs[0];
    assert(0 <= rs@[0].0 <= rs@[0].1 <= v.len());
    if !slice_is(v, a0, b0, "v=0") {
        proof {
            reveal_strlit("v=0");
            assert("v=0"@ =~= seq!['v', '=', '0']);
        }
        return None;
    }
    proof {
        reveal_strlit("v=0");
        assert(ls[0] =~= seq!['v', '=', '0']);
    }
    if !line_has(v, rs, 1, 'o') || !line_has(v, rs, 2, 's') {
        return None;
    }
    let (oa, ob) = value_range(v, rs, 1, 'o');
    let origin = match read_origin(v, oa, ob) {
        Some(o) => o,
        None => {
            return None;
        },
    };
    let (na, nb) = value_range(v, rs, 2, 's');
    let session_name = string_of(v, na, nb);
    let (info, p1) = read_opt_text(v, rs, 3, 'i');
    let (uri, p2) = read_opt_text(v, rs, p1, 'u');
    let (email, p3) = read_opt_text(v, rs, p2, 'e');
    let (phone, p4) = read_opt_text(v, rs, p3, 'p');
    let (conn, p5) = match read_connection_at(v, rs, p4) {
        Some(x) => x,
        None => {
            return None;
        },
    };
    let (bws, p6) = match read_bandwidths_at(v, rs, p5) {
        Some(x) => x,
        None => {
            return None;
        },
    };
    let (times, p7) = match read_times_at(v, rs, p6) {
        Some(x) => x,
        None => {
            return None;
        },
    };
    let (attrs, p8) = read_attributes_at(v, rs, p7);
    let (media, p9) = match read_medias_at(v, rs, p8) {
        Some(x) => x,
        None => {
            return None;
        },
    };
    if times.len() < 1 || p9 != rs.len() {
        return None;
    }
    Some(
        SessionDescription {
            origin,
            session_name,
            session_information: info,
            uri,
            email_address: email,
            phone_number: phone,
            connection_information: conn,
            bandwidth_information: bws,
            time: times,
            attributes: attrs,
            media,
        },
    )
}

/// Reads session descriptions from their SDP text.
pub struct SdpParser;

impl SdpParser {
    /// Reads a session description from its SDP text: CRLF-terminated lines in the order of
    /// RFC 4566 section 5. Fails with `ErrSdpParse` exactly where the text spells none.
    pub fn parse(input: &str) -> (r: Result<SessionDescription>)
        ensures
            match parse_sdp(input@) {
                Some(sd) => r matches Ok(x) && x@ == sd,
                None => r matches Err(Error::ErrSdpParse),
            },
    {
        let v = chars_of(input);
        match line_ranges(&v) {
            Some(rs) => match read_session(&v, &rs) {
                Some(sd) => Ok(sd),
                None => Err(Error::ErrSdpParse),
            },
            None => Err(Error::ErrSdpParse),
        }
    }
}

} // verus!
