//! The SDP text form read back: reading the text written for a description gives the
//! description, and reading text gives a description whose text is that text.

use vstd::prelude::*;
use crate::scan::{first_index, split_on, lemma_first_index, lemma_first_index_is, split_lines, line_len, is_break, lemma_line_len_is};
use crate::sdp::{
    NetType, AddrType, MediaType, SdpTransport, OriginView, ConnectionView, BandwidthView,
    AttributeView, TimeActive, MediaView, origin_text, connection_text, bandwidth_text,
    attribute_text, time_text, media_text, port_text, formats_text, sp, crlf, join_lines,
    lemma_join_add, lemma_join_one, line, opt_lines, connection_lines, bandwidth_lines,
    attribute_lines, repeat_lines, time_lines, time_section_lines, media_lines,
    media_section_lines, session_lines, sdp_text, TimeView, SessionView,
};
use crate::sdp_parser::{
    parse_u64_text, parse_u16_text, parse_nettype, parse_addrtype, parse_media_type,
    parse_transport, parse_origin, parse_connection, parse_bandwidth, parse_attribute, parse_time,
    parse_port, parse_media_line, MediaLineView, media_from_line, is_line, has_line, value_of,
    opt_text_at, connection_at, bandwidths_at, attributes_at, repeats_at, times_at,
    media_section_at, medias_at, session_from_lines, parse_sdp, lemma_repeats_at_end,
    lemma_attributes_at_end, lemma_bandwidths_at_end, lemma_media_section_at_end,
};
use crate::text::{dec_str, dec_value, digit_char, digit_value, is_canonical_dec, is_digit, all_digits};

verus! {

/// A digit character written for its value is the character itself.
pub proof fn lemma_digit_roundtrip(c: char)
    requires
        is_digit(c),
    ensures
        digit_char(digit_value(c)) == c,
        digit_value(c) < 10,
{
}

/// The digit for `d < 10` is a digit of value `d`.
pub proof fn lemma_digit_char(d: nat)
    requires
        d < 10,
    ensures
        is_digit(digit_char(d)),
        digit_value(digit_char(d)) == d,
{
}


proof fn lemma_div_mod_10(a: nat, d: nat)
    requires
        d < 10,
    ensures
        (a * 10 + d) / 10 == a,
        (a * 10 + d) % 10 == d,
{
    assert((a * 10 + d) / 10 == a && (a * 10 + d) % 10 == d) by (nonlinear_arith)
        requires
            d < 10,
    ;
}

proof fn lemma_dec_value_single(s: Seq<char>)
    requires
        s.len() == 1,
    ensures
        dec_value(s) == digit_value(s[0]),
{
    assert(s.drop_last() =~= Seq::<char>::empty());
    assert(dec_value(Seq::<char>::empty()) == 0);
}

proof fn lemma_dec_value_positive(s: Seq<char>)
    requires
        s.len() > 0,
        all_digits(s),
        s[0] != '0',
    ensures
        dec_value(s) >= 1,
    decreases s.len(),
{
    if s.len() == 1 {
        lemma_dec_value_single(s);
    } else {
        let t = s.drop_last();
        assert(t[0] == s[0]);
        assert(all_digits(t)) by {
            assert forall|i: int| 0 <= i < t.len() implies is_digit(#[trigger] t[i]) by {
                assert(t[i] == s[i]);
            }
        }
        lemma_dec_value_positive(t);
    }
}

/// The decimal text of a number is a canonical numeral of that value.
pub proof fn lemma_dec_str(n: nat)
    ensures
        is_canonical_dec(dec_str(n)),
        dec_value(dec_str(n)) == n,
    decreases n,
{
    if n < 10 {
        lemma_digit_char(n);
        lemma_dec_value_single(seq![digit_char(n)]);
    } else {
        lemma_dec_str(n / 10);
        lemma_digit_char(n % 10);
        let t = dec_str(n / 10);
        let s = dec_str(n);
        assert(s == t.push(digit_char(n % 10)));
        assert(s.drop_last() =~= t);
        assert(all_digits(s)) by {
            assert forall|i: int| 0 <= i < s.len() implies is_digit(#[trigger] s[i]) by {
                if i < t.len() {
                    assert(s[i] == t[i]);
                }
            }
        }
        assert(s[0] == t[0]);
        if t.len() == 1 {
            lemma_dec_value_single(t);
        }
        assert(n == (n / 10) * 10 + n % 10);
    }
}

/// A canonical numeral is the decimal text of its value.
pub proof fn lemma_canonical_dec(s: Seq<char>)
    requires
        is_canonical_dec(s),
    ensures
        dec_str(dec_value(s)) == s,
    decreases s.len(),
{
    if s.len() == 1 {
        lemma_digit_roundtrip(s[0]);
        lemma_dec_value_single(s);
        assert(dec_str(dec_value(s)) =~= s);
    } else {
        let t = s.drop_last();
        assert(t[0] == s[0]);
        assert(all_digits(t)) by {
            assert forall|i: int| 0 <= i < t.len() implies is_digit(#[trigger] t[i]) by {
                assert(t[i] == s[i]);
            }
        }
        lemma_dec_value_positive(t);
        lemma_canonical_dec(t);
        let d = digit_value(s.last());
        lemma_digit_roundtrip(s.last());
        lemma_div_mod_10(dec_value(t), d);
        assert(dec_value(s) == dec_value(t) * 10 + d);
        assert(dec_str(dec_value(s)) == dec_str(dec_value(t)).push(digit_char(d)));
        assert(dec_str(dec_value(s)) =~= s);
    }
}


// ---------------------------------------------------------------------------
// Splitting on a separator, and joining back
// ---------------------------------------------------------------------------

/// Pieces joined with `c` between them.
pub open spec fn join_on(parts: Seq<Seq<char>>, c: char) -> Seq<char>
    decreases parts.len(),
{
    if parts.len() == 0 {
        Seq::empty()
    } else if parts.len() == 1 {
        parts[0]
    } else {
        parts[0] + seq![c] + join_on(parts.drop_first(), c)
    }
}

pub proof fn lemma_split_on_nonempty(v: Seq<char>, c: char)
    ensures
        split_on(v, c).len() >= 1,
    decreases v.len(),
{
    lemma_first_index(v, c);
    match first_index(v, c) {
        Some(i) => {
            lemma_split_on_nonempty(v.skip(i + 1), c);
        },
        None => {},
    }
}

/// Splitting on `c` and joining with `c` gives back the text; no piece holds `c`.
pub proof fn lemma_split_join(v: Seq<char>, c: char)
    ensures
        join_on(split_on(v, c), c) == v,
        forall|k: int| 0 <= k < split_on(v, c).len() ==> !(#[trigger] split_on(v, c)[k]).contains(c),
    decreases v.len(),
{
    lemma_first_index(v, c);
    match first_index(v, c) {
        Some(i) => {
            let rest = split_on(v.skip(i + 1), c);
            lemma_split_join(v.skip(i + 1), c);
            lemma_split_on_nonempty(v.skip(i + 1), c);
            let parts = split_on(v, c);
            assert(parts == seq![v.take(i)] + rest);
            assert(parts.drop_first() =~= rest);
            assert(parts.len() >= 2);
            assert(join_on(parts, c) == v.take(i) + seq![c] + join_on(rest, c));
            assert(v.take(i) + seq![c] + v.skip(i + 1) =~= v);
            assert forall|k: int| 0 <= k < parts.len() implies !(#[trigger] parts[k]).contains(c) by {
                if k == 0 {
                    assert forall|j: int| 0 <= j < v.take(i).len() implies v.take(i)[j] != c by {
                        assert(v.take(i)[j] == v[j]);
                    }
                } else {
                    assert(parts[k] == rest[k - 1]);
                }
            }
        },
        None => {
            assert(split_on(v, c) == seq![v]);
        },
    }
}

/// Joining pieces that do not hold `c` and splitting on `c` gives back the pieces.
pub proof fn lemma_join_split(parts: Seq<Seq<char>>, c: char)
    requires
        parts.len() >= 1,
        forall|k: int| 0 <= k < parts.len() ==> !(#[trigger] parts[k]).contains(c),
    ensures
        split_on(join_on(parts, c), c) == parts,
    decreases parts.len(),
{
    let p0 = parts[0];
    assert(!p0.contains(c));
    if parts.len() == 1 {
        lemma_first_index_is(p0, c, p0.len() as int);
        assert(split_on(p0, c) == seq![p0]);
        assert(seq![p0] =~= parts);
    } else {
        let rest = parts.drop_first();
        assert forall|k: int| 0 <= k < rest.len() implies !(#[trigger] rest[k]).contains(c) by {
            assert(rest[k] == parts[k + 1]);
        }
        lemma_join_split(rest, c);
        let v = join_on(parts, c);
        assert(v == p0 + seq![c] + join_on(rest, c));
        let i = p0.len() as int;
        assert forall|k: int| 0 <= k < i implies v[k] != c by {
            assert(v[k] == p0[k]);
        }
        lemma_first_index_is(v, c, i);
        assert(v.take(i) =~= p0);
        assert(v.skip(i + 1) =~= join_on(rest, c));
        assert(split_on(v, c) == seq![p0] + split_on(join_on(rest, c), c));
        assert(seq![p0] + rest =~= parts);
    }
}

/// Joining one more piece.
pub proof fn lemma_join_on_push(parts: Seq<Seq<char>>, x: Seq<char>, c: char)
    requires
        parts.len() >= 1,
    ensures
        join_on(parts.push(x), c) == join_on(parts, c) + seq![c] + x,
    decreases parts.len(),
{
    if parts.len() == 1 {
        assert(parts.push(x).drop_first() =~= seq![x]);
        assert(join_on(seq![x], c) == x);
    } else {
        lemma_join_on_push(parts.drop_first(), x, c);
        assert(parts.push(x).drop_first() =~= parts.drop_first().push(x));
    }
}

pub proof fn lemma_join_on_2(f: Seq<Seq<char>>, c: char)
    requires
        f.len() == 2,
    ensures
        join_on(f, c) == f[0] + seq![c] + f[1],
{
    assert(f.drop_first().len() == 1);
    assert(join_on(f.drop_first(), c) == f[1]);
}

pub proof fn lemma_join_on_3(f: Seq<Seq<char>>, c: char)
    requires
        f.len() == 3,
    ensures
        join_on(f, c) == f[0] + seq![c] + f[1] + seq![c] + f[2],
{
    lemma_join_on_2(f.drop_first(), c);
    assert(f.drop_first()[0] == f[1] && f.drop_first()[1] == f[2]);
    assert(join_on(f, c) =~= f[0] + seq![c] + f[1] + seq![c] + f[2]);
}

pub proof fn lemma_join_on_6(f: Seq<Seq<char>>, c: char)
    requires
        f.len() == 6,
    ensures
        join_on(f, c) == f[0] + seq![c] + f[1] + seq![c] + f[2] + seq![c] + f[3] + seq![c] + f[4]
            + seq![c] + f[5],
{
    let f1 = f.drop_first();
    let f2 = f1.drop_first();
    let f3 = f2.drop_first();
    lemma_join_on_3(f3, c);
    assert(f3[0] == f[3] && f3[1] == f[4] && f3[2] == f[5]);
    assert(join_on(f2, c) == f[2] + seq![c] + join_on(f3, c));
    assert(join_on(f1, c) == f[1] + seq![c] + join_on(f2, c));
    assert(join_on(f, c) == f[0] + seq![c] + join_on(f1, c));
    assert(join_on(f, c) =~= f[0] + seq![c] + f[1] + seq![c] + f[2] + seq![c] + f[3] + seq![c] + f[4]
        + seq![c] + f[5]);
}

/// The text before and after the first `c`, with `c` between them, is the whole text.
pub proof fn lemma_first_split(v: Seq<char>, c: char)
    requires
        first_index(v, c) is Some,
    ensures
        ({
            let i = first_index(v, c)->0;
            &&& 0 <= i < v.len()
            &&& v.take(i) + seq![c] + v.skip(i + 1) == v
            &&& !v.take(i).contains(c)
        }),
{
    lemma_first_index(v, c);
    let i = first_index(v, c)->0;
    assert(v.take(i) + seq![c] + v.skip(i + 1) =~= v);
    assert forall|j: int| 0 <= j < v.take(i).len() implies v.take(i)[j] != c by {
        assert(v.take(i)[j] == v[j]);
    }
}

/// Where `a` does not hold `c`, the first `c` of `a + [c] + b` ends `a`.
pub proof fn lemma_first_of_joined(a: Seq<char>, b: Seq<char>, c: char)
    requires
        !a.contains(c),
    ensures
        first_index(a + seq![c] + b, c) == Some(a.len() as int),
        (a + seq![c] + b).take(a.len() as int) == a,
        (a + seq![c] + b).skip(a.len() as int + 1) == b,
{
    let v = a + seq![c] + b;
    assert forall|k: int| 0 <= k < a.len() implies v[k] != c by {
        assert(v[k] == a[k]);
    }
    lemma_first_index_is(v, c, a.len() as int);
    assert(v.take(a.len() as int) =~= a);
    assert(v.skip(a.len() as int + 1) =~= b);
}


// ---------------------------------------------------------------------------
// Field values
// ---------------------------------------------------------------------------

/// Digits hold no separator.
pub proof fn lemma_digits_hold_no(s: Seq<char>, c: char)
    requires
        all_digits(s),
        !is_digit(c),
    ensures
        !s.contains(c),
{
    assert forall|i: int| 0 <= i < s.len() implies s[i] != c by {
        assert(is_digit(s[i]));
    }
}

pub proof fn lemma_u64_text(n: u64)
    ensures
        parse_u64_text(dec_str(n as nat)) == Some(n),
        !dec_str(n as nat).contains(' '),
        !dec_str(n as nat).contains(':'),
        !dec_str(n as nat).contains('/'),
{
    lemma_dec_str(n as nat);
    lemma_digits_hold_no(dec_str(n as nat), ' ');
    lemma_digits_hold_no(dec_str(n as nat), ':');
    lemma_digits_hold_no(dec_str(n as nat), '/');
}

pub proof fn lemma_u16_text(n: u16)
    ensures
        parse_u16_text(dec_str(n as nat)) == Some(n),
        !dec_str(n as nat).contains(' '),
        !dec_str(n as nat).contains('/'),
{
    lemma_dec_str(n as nat);
    lemma_digits_hold_no(dec_str(n as nat), ' ');
    lemma_digits_hold_no(dec_str(n as nat), '/');
}

pub proof fn lemma_parsed_u64(s: Seq<char>)
    requires
        parse_u64_text(s) is Some,
    ensures
        dec_str(parse_u64_text(s)->0 as nat) == s,
{
    lemma_canonical_dec(s);
}

pub proof fn lemma_parsed_u16(s: Seq<char>)
    requires
        parse_u16_text(s) is Some,
    ensures
        dec_str(parse_u16_text(s)->0 as nat) == s,
{
    lemma_canonical_dec(s);
}

pub proof fn lemma_enum_texts(nt: NetType, at: AddrType, mt: MediaType, tr: SdpTransport)
    ensures
        parse_nettype(nt.text()) == Some(nt),
        parse_addrtype(at.text()) == Some(at),
        parse_media_type(mt.text()) == Some(mt),
        parse_transport(tr.text()) == Some(tr),
        !nt.text().contains(' '),
        !at.text().contains(' '),
        !mt.text().contains(' '),
        !tr.text().contains(' '),
{
    reveal_strlit("IN");
    reveal_strlit("IP4");
    reveal_strlit("IP6");
    reveal_strlit("audio");
    reveal_strlit("video");
    reveal_strlit("text");
    reveal_strlit("application");
    reveal_strlit("message");
    reveal_strlit("udp");
    reveal_strlit("RTP/AVP");
    reveal_strlit("RTP/AVPF");
    reveal_strlit("RTP/SAVP");
    reveal_strlit("RTP/SAVPF");
    assert(!nt.text().contains(' ')) by {
        assert forall|i: int| 0 <= i < nt.text().len() implies nt.text()[i] != ' ' by {}
    }
    assert(!at.text().contains(' ')) by {
        assert forall|i: int| 0 <= i < at.text().len() implies at.text()[i] != ' ' by {}
    }
    assert(!mt.text().contains(' ')) by {
        assert forall|i: int| 0 <= i < mt.text().len() implies mt.text()[i] != ' ' by {}
    }
    assert(!tr.text().contains(' ')) by {
        assert forall|i: int| 0 <= i < tr.text().len() implies tr.text()[i] != ' ' by {}
    }
    match at {
        AddrType::IP6 => {
            assert("IP6"@ != "IP4"@) by {
                assert("IP6"@[2] != "IP4"@[2]);
            }
        },
        _ => {},
    }
    match mt {
        MediaType::Audio => {},
        MediaType::Video => {
            assert("video"@ != "audio"@) by { assert("video"@[0] != "audio"@[0]); }
        },
        MediaType::Text => {
            assert("text"@ != "audio"@) by { assert("text"@.len() != "audio"@.len()); }
            assert("text"@ != "video"@) by { assert("text"@.len() != "video"@.len()); }
        },
        MediaType::Application => {
            assert("application"@ != "audio"@) by { assert("application"@.len() != "audio"@.len()); }
            assert("application"@ != "video"@) by { assert("application"@.len() != "video"@.len()); }
            assert("application"@ != "text"@) by { assert("application"@.len() != "text"@.len()); }
        },
        MediaType::Message => {
            assert("message"@ != "audio"@) by { assert("message"@.len() != "audio"@.len()); }
            assert("message"@ != "video"@) by { assert("message"@.len() != "video"@.len()); }
            assert("message"@ != "text"@) by { assert("message"@.len() != "text"@.len()); }
            assert("message"@ != "application"@) by { assert("message"@.len() != "application"@.len()); }
        },
    }
    match tr {
        SdpTransport::Udp => {},
        SdpTransport::RTPAVP => {
            assert("RTP/AVP"@ != "udp"@) by { assert("RTP/AVP"@.len() != "udp"@.len()); }
        },
        SdpTransport::RTPAVPF => {
            assert("RTP/AVPF"@ != "udp"@) by { assert("RTP/AVPF"@.len() != "udp"@.len()); }
            assert("RTP/AVPF"@ != "RTP/AVP"@) by { assert("RTP/AVPF"@.len() != "RTP/AVP"@.len()); }
        },
        SdpTransport::RTPSAVP => {
            assert("RTP/SAVP"@ != "udp"@) by { assert("RTP/SAVP"@.len() != "udp"@.len()); }
            assert("RTP/SAVP"@ != "RTP/AVP"@) by { assert("RTP/SAVP"@.len() != "RTP/AVP"@.len()); }
            assert("RTP/SAVP"@ != "RTP/AVPF"@) by { assert("RTP/SAVP"@[4] != "RTP/AVPF"@[4]); }
        },
        SdpTransport::RTPSAVPF => {
            assert("RTP/SAVPF"@ != "udp"@) by { assert("RTP/SAVPF"@.len() != "udp"@.len()); }
            assert("RTP/SAVPF"@ != "RTP/AVP"@) by { assert("RTP/SAVPF"@.len() != "RTP/AVP"@.len()); }
            assert("RTP/SAVPF"@ != "RTP/AVPF"@) by { assert("RTP/SAVPF"@.len() != "RTP/AVPF"@.len()); }
            assert("RTP/SAVPF"@ != "RTP/SAVP"@) by { assert("RTP/SAVPF"@.len() != "RTP/SAVP"@.len()); }
        },
    }
}

pub proof fn lemma_parsed_enums(s: Seq<char>)
    ensures
        parse_nettype(s) matches Some(t) ==> t.text() == s,
        parse_addrtype(s) matches Some(t) ==> t.text() == s,
        parse_media_type(s) matches Some(t) ==> t.text() == s,
        parse_transport(s) matches Some(t) ==> t.text() == s,
{
}


/// Joining a run of pieces followed by formats, each format preceded by the separator.
pub proof fn lemma_join_formats(pre: Seq<Seq<char>>, fs: Seq<Seq<char>>)
    requires
        pre.len() >= 1,
    ensures
        join_on(pre + fs, ' ') == join_on(pre, ' ') + formats_text(fs),
    decreases fs.len(),
{
    if fs.len() == 0 {
        assert(pre + fs =~= pre);
        assert(join_on(pre, ' ') + formats_text(fs) =~= join_on(pre, ' '));
    } else {
        let init = fs.drop_last();
        lemma_join_formats(pre, init);
        assert(pre + fs =~= (pre + init).push(fs.last()));
        lemma_join_on_push(pre + init, fs.last(), ' ');
        assert(join_on(pre + fs, ' ') =~= join_on(pre, ' ') + formats_text(fs));
    }
}

pub open spec fn no_space(s: Seq<char>) -> bool {
    !s.contains(' ')
}

pub open spec fn origin_fields(o: OriginView) -> Seq<Seq<char>> {
    seq![
        o.user,
        dec_str(o.session_id as nat),
        dec_str(o.session_version as nat),
        o.nettype.text(),
        o.addrtype.text(),
        o.unicast_address,
    ]
}

pub proof fn lemma_origin_join(o: OriginView)
    ensures
        join_on(origin_fields(o), ' ') == origin_text(o),
{
    lemma_join_on_6(origin_fields(o), ' ');
    assert(join_on(origin_fields(o), ' ') =~= origin_text(o));
}

/// Reading the origin text of an origin gives the origin back.
pub proof fn lemma_origin_roundtrip(o: OriginView)
    requires
        no_space(o.user),
        no_space(o.unicast_address),
    ensures
        parse_origin(origin_text(o)) == Some(o),
{
    let f = origin_fields(o);
    lemma_u64_text(o.session_id);
    lemma_u64_text(o.session_version);
    lemma_enum_texts(o.nettype, o.addrtype, MediaType::Audio, SdpTransport::Udp);
    lemma_origin_join(o);
    assert forall|k: int| 0 <= k < f.len() implies !(#[trigger] f[k]).contains(' ') by {}
    lemma_join_split(f, ' ');
}

/// The origin read from text is written back as that text.
pub proof fn lemma_origin_read(v: Seq<char>)
    requires
        parse_origin(v) is Some,
    ensures
        origin_text(parse_origin(v)->0) == v,
        no_space(parse_origin(v)->0.user),
        no_space(parse_origin(v)->0.unicast_address),
{
    let f = split_on(v, ' ');
    let o = parse_origin(v)->0;
    lemma_split_join(v, ' ');
    lemma_parsed_u64(f[1]);
    lemma_parsed_u64(f[2]);
    lemma_parsed_enums(f[3]);
    lemma_parsed_enums(f[4]);
    assert(origin_fields(o) =~= f);
    lemma_origin_join(o);
    assert(!f[0].contains(' '));
    assert(!f[5].contains(' '));
}

pub open spec fn connection_fields(c: ConnectionView) -> Seq<Seq<char>> {
    seq![c.nettype.text(), c.addrtype.text(), c.address]
}

pub proof fn lemma_connection_roundtrip(c: ConnectionView)
    requires
        no_space(c.address),
    ensures
        parse_connection(connection_text(c)) == Some(c),
{
    let f = connection_fields(c);
    lemma_enum_texts(c.nettype, c.addrtype, MediaType::Audio, SdpTransport::Udp);
    lemma_join_on_3(f, ' ');
    assert(join_on(f, ' ') =~= connection_text(c));
    assert forall|k: int| 0 <= k < f.len() implies !(#[trigger] f[k]).contains(' ') by {}
    lemma_join_split(f, ' ');
}

pub proof fn lemma_connection_read(v: Seq<char>)
    requires
        parse_connection(v) is Some,
    ensures
        connection_text(parse_connection(v)->0) == v,
        no_space(parse_connection(v)->0.address),
{
    let f = split_on(v, ' ');
    let c = parse_connection(v)->0;
    lemma_split_join(v, ' ');
    lemma_parsed_enums(f[0]);
    lemma_parsed_enums(f[1]);
    assert(connection_fields(c) =~= f);
    lemma_join_on_3(f, ' ');
    assert(join_on(f, ' ') =~= connection_text(c));
    assert(!f[2].contains(' '));
}

pub proof fn lemma_bandwidth_roundtrip(b: BandwidthView)
    requires
        !b.bwtype.contains(':'),
    ensures
        parse_bandwidth(bandwidth_text(b)) == Some(b),
{
    lemma_first_of_joined(b.bwtype, dec_str(b.bandwidth as nat), ':');
    lemma_u64_text(b.bandwidth);
}

pub proof fn lemma_bandwidth_read(v: Seq<char>)
    requires
        parse_bandwidth(v) is Some,
    ensures
        bandwidth_text(parse_bandwidth(v)->0) == v,
        !parse_bandwidth(v)->0.bwtype.contains(':'),
{
    lemma_first_split(v, ':');
    let i = first_index(v, ':')->0;
    lemma_parsed_u64(v.skip(i + 1));
}

pub proof fn lemma_attribute_roundtrip(a: AttributeView)
    requires
        !a.name.contains(':'),
    ensures
        parse_attribute(attribute_text(a)) == a,
{
    match a.value {
        Some(v) => {
            lemma_first_of_joined(a.name, v, ':');
        },
        None => {
            lemma_first_index_is(a.name, ':', a.name.len() as int);
        },
    }
}

pub proof fn lemma_attribute_read(v: Seq<char>)
    ensures
        attribute_text(parse_attribute(v)) == v,
        !parse_attribute(v).name.contains(':'),
{
    lemma_first_index(v, ':');
    match first_index(v, ':') {
        Some(i) => {
            lemma_first_split(v, ':');
        },
        None => {},
    }
}

pub proof fn lemma_time_roundtrip(t: TimeActive)
    ensures
        parse_time(time_text(t)) == Some(t),
{
    let f = seq![dec_str(t.start_time as nat), dec_str(t.stop_time as nat)];
    lemma_u64_text(t.start_time);
    lemma_u64_text(t.stop_time);
    lemma_join_on_2(f, ' ');
    assert(join_on(f, ' ') =~= time_text(t));
    assert forall|k: int| 0 <= k < f.len() implies !(#[trigger] f[k]).contains(' ') by {}
    lemma_join_split(f, ' ');
}

pub proof fn lemma_time_read(v: Seq<char>)
    requires
        parse_time(v) is Some,
    ensures
        time_text(parse_time(v)->0) == v,
{
    let f = split_on(v, ' ');
    lemma_split_join(v, ' ');
    lemma_parsed_u64(f[0]);
    lemma_parsed_u64(f[1]);
    lemma_join_on_2(f, ' ');
    assert(join_on(f, ' ') =~= time_text(parse_time(v)->0));
}

pub proof fn lemma_port_roundtrip(p: u16, n: Option<u16>)
    ensures
        parse_port(port_text(p, n)) == Some((p, n)),
        no_space(port_text(p, n)),
{
    lemma_u16_text(p);
    match n {
        Some(k) => {
            lemma_u16_text(k);
            lemma_first_of_joined(dec_str(p as nat), dec_str(k as nat), '/');
            let t = port_text(p, n);
            assert forall|i: int| 0 <= i < t.len() implies t[i] != ' ' by {
                let a = dec_str(p as nat);
                if i < a.len() {
                    assert(t[i] == a[i]);
                } else if i > a.len() {
                    assert(t[i] == dec_str(k as nat)[i - a.len() - 1]);
                }
            }
        },
        None => {
            lemma_first_index_is(dec_str(p as nat), '/', dec_str(p as nat).len() as int);
        },
    }
}

pub proof fn lemma_port_read(s: Seq<char>)
    requires
        parse_port(s) is Some,
    ensures
        ({
            let pn = parse_port(s)->0;
            port_text(pn.0, pn.1) == s
        }),
{
    lemma_first_index(s, '/');
    match first_index(s, '/') {
        Some(i) => {
            lemma_first_split(s, '/');
            lemma_parsed_u16(s.take(i));
            lemma_parsed_u16(s.skip(i + 1));
        },
        None => {
            lemma_parsed_u16(s);
        },
    }
}

pub open spec fn media_line_of(m: MediaView) -> MediaLineView {
    MediaLineView {
        media_type: m.media_type,
        port: m.port,
        number_of_ports: m.number_of_ports,
        proto: m.proto,
        media_formats: m.media_formats,
    }
}

pub open spec fn media_line_fields(m: MediaView) -> Seq<Seq<char>> {
    seq![m.media_type.text(), port_text(m.port, m.number_of_ports), m.proto.text()] + m.media_formats
}

pub proof fn lemma_media_line_join(m: MediaView)
    ensures
        join_on(media_line_fields(m), ' ') == media_text(m),
{
    let pre = seq![m.media_type.text(), port_text(m.port, m.number_of_ports), m.proto.text()];
    lemma_join_formats(pre, m.media_formats);
    lemma_join_on_3(pre, ' ');
    assert(join_on(media_line_fields(m), ' ') =~= media_text(m));
}

pub proof fn lemma_media_line_roundtrip(m: MediaView)
    requires
        forall|k: int| 0 <= k < m.media_formats.len() ==> no_space(#[trigger] m.media_formats[k]),
    ensures
        parse_media_line(media_text(m)) == Some(media_line_of(m)),
{
    let f = media_line_fields(m);
    lemma_enum_texts(NetType::IN, AddrType::IP4, m.media_type, m.proto);
    lemma_port_roundtrip(m.port, m.number_of_ports);
    lemma_media_line_join(m);
    assert forall|k: int| 0 <= k < f.len() implies !(#[trigger] f[k]).contains(' ') by {
        if k >= 3 {
            assert(f[k] == m.media_formats[k - 3]);
        }
    }
    lemma_join_split(f, ' ');
    assert(f.skip(3) =~= m.media_formats);
}

pub proof fn lemma_media_line_read(v: Seq<char>)
    requires
        parse_media_line(v) is Some,
    ensures
        ({
            let m = media_from_line(parse_media_line(v)->0);
            &&& media_text(m) == v
            &&& forall|k: int| 0 <= k < m.media_formats.len() ==> no_space(#[trigger] m.media_formats[k])
        }),
{
    let f = split_on(v, ' ');
    let m = media_from_line(parse_media_line(v)->0);
    lemma_split_join(v, ' ');
    lemma_parsed_enums(f[0]);
    lemma_parsed_enums(f[2]);
    lemma_port_read(f[1]);
    assert(media_line_fields(m) =~= f);
    lemma_media_line_join(m);
    assert forall|k: int| 0 <= k < m.media_formats.len() implies no_space(#[trigger] m.media_formats[k]) by {
        assert(m.media_formats[k] == f[k + 3]);
    }
}


// ---------------------------------------------------------------------------
// Lines
// ---------------------------------------------------------------------------

/// No line holds CR or LF.
pub open spec fn lines_clean(ls: Seq<Seq<char>>) -> bool {
    forall|k: int, j: int| 0 <= k < ls.len() && 0 <= j < ls[k].len() ==> !is_break(#[trigger] ls[k][j])
}

pub proof fn lemma_join_prepend(l: Seq<char>, rest: Seq<Seq<char>>)
    ensures
        join_lines(seq![l] + rest) == l + crlf() + join_lines(rest),
{
    lemma_join_add(seq![l], rest);
    lemma_join_one(l);
}

proof fn lemma_line_len_prefix(s: Seq<char>)
    ensures
        line_len(s) <= s.len(),
        forall|k: int| 0 <= k < line_len(s) ==> !is_break(#[trigger] s[k]),
    decreases s.len(),
{
    if s.len() > 0 && !is_break(s[0]) {
        lemma_line_len_prefix(s.drop_first());
        assert forall|k: int| 0 <= k < line_len(s) implies !is_break(#[trigger] s[k]) by {
            if k > 0 {
                assert(s[k] == s.drop_first()[k - 1]);
            }
        }
    }
}

/// Text read as CRLF-terminated lines is those lines joined back.
pub proof fn lemma_split_lines_read(s: Seq<char>)
    requires
        split_lines(s) is Some,
    ensures
        join_lines(split_lines(s)->0) == s,
        lines_clean(split_lines(s)->0),
    decreases s.len(),
{
    if s.len() > 0 {
        let n = line_len(s) as int;
        lemma_line_len_prefix(s);
        let rest = split_lines(s.skip(n + 2))->0;
        lemma_split_lines_read(s.skip(n + 2));
        let ls = split_lines(s)->0;
        assert(ls == seq![s.take(n)] + rest);
        lemma_join_prepend(s.take(n), rest);
        assert(s.take(n) + crlf() + s.skip(n + 2) =~= s);
        assert forall|k: int, j: int| 0 <= k < ls.len() && 0 <= j < ls[k].len() implies !is_break(
            #[trigger] ls[k][j],
        ) by {
            if k == 0 {
                assert(ls[0][j] == s[j]);
            } else {
                assert(ls[k] == rest[k - 1]);
            }
        }
    } else {
        assert(join_lines(Seq::<Seq<char>>::empty()) == Seq::<char>::empty());
    }
}

/// Lines holding neither CR nor LF, joined, read back as those lines.
pub proof fn lemma_split_lines_roundtrip(ls: Seq<Seq<char>>)
    requires
        lines_clean(ls),
    ensures
        split_lines(join_lines(ls)) == Some(ls),
    decreases ls.len(),
{
    if ls.len() == 0 {
        assert(join_lines(ls) == Seq::<char>::empty());
    } else {
        let l = ls[0];
        let rest = ls.drop_first();
        assert(ls == seq![l] + rest);
        assert forall|k: int, j: int| 0 <= k < rest.len() && 0 <= j < rest[k].len() implies !is_break(
            #[trigger] rest[k][j],
        ) by {
            assert(rest[k] == ls[k + 1]);
        }
        lemma_split_lines_roundtrip(rest);
        lemma_join_prepend(l, rest);
        let s = join_lines(ls);
        assert(s == l + crlf() + join_lines(rest));
        let n = l.len() as int;
        assert forall|k: int| 0 <= k < n implies !is_break(s[k]) by {
            assert(s[k] == ls[0][k]);
        }
        lemma_line_len_is(s, n);
        assert(s.take(n) =~= l);
        assert(s.skip(n + 2) =~= join_lines(rest));
    }
}


// ---------------------------------------------------------------------------
// The line structure, read back
// ---------------------------------------------------------------------------

proof fn lemma_line_of(l: Seq<char>, t: char)
    requires
        is_line(l, t),
    ensures
        line(t, value_of(l)) == l,
{
    assert(line(t, value_of(l)) =~= l);
}

proof fn lemma_subrange_cons(ls: Seq<Seq<char>>, p: int, q: int)
    requires
        0 <= p < q <= ls.len(),
    ensures
        ls.subrange(p, q) == seq![ls[p]] + ls.subrange(p + 1, q),
{
    assert(ls.subrange(p, q) =~= seq![ls[p]] + ls.subrange(p + 1, q));
}

proof fn lemma_subrange_join(ls: Seq<Seq<char>>, p: int, q: int, r: int)
    requires
        0 <= p <= q <= r <= ls.len(),
    ensures
        ls.subrange(p, r) == ls.subrange(p, q) + ls.subrange(q, r),
{
    assert(ls.subrange(p, r) =~= ls.subrange(p, q) + ls.subrange(q, r));
}

pub proof fn lemma_opt_text_read(ls: Seq<Seq<char>>, p: int, t: char)
    requires
        0 <= p <= ls.len(),
    ensures
        ({
            let (o, q) = opt_text_at(ls, p, t);
            p <= q <= ls.len() && opt_lines(t, o) == ls.subrange(p, q)
        }),
{
    if has_line(ls, p, t) {
        lemma_line_of(ls[p], t);
        assert(ls.subrange(p, p + 1) =~= seq![ls[p]]);
    } else {
        assert(ls.subrange(p, p) =~= Seq::<Seq<char>>::empty());
    }
}

pub proof fn lemma_connection_at_read(ls: Seq<Seq<char>>, p: int)
    requires
        0 <= p <= ls.len(),
        connection_at(ls, p) is Some,
    ensures
        ({
            let (c, q) = connection_at(ls, p)->0;
            &&& p <= q <= ls.len()
            &&& connection_lines(c) == ls.subrange(p, q)
            &&& c matches Some(x) ==> no_space(x.address)
        }),
{
    if has_line(ls, p, 'c') {
        lemma_line_of(ls[p], 'c');
        lemma_connection_read(value_of(ls[p]));
        assert(ls.subrange(p, p + 1) =~= seq![ls[p]]);
    } else {
        assert(ls.subrange(p, p) =~= Seq::<Seq<char>>::empty());
    }
}

pub proof fn lemma_bandwidths_at_read(ls: Seq<Seq<char>>, p: int)
    requires
        0 <= p <= ls.len(),
        bandwidths_at(ls, p) is Some,
    ensures
        ({
            let (bs, q) = bandwidths_at(ls, p)->0;
            &&& p <= q <= ls.len()
            &&& bandwidth_lines(bs) == ls.subrange(p, q)
            &&& forall|k: int| 0 <= k < bs.len() ==> !(#[trigger] bs[k]).bwtype.contains(':')
        }),
    decreases ls.len() - p,
{
    if has_line(ls, p, 'b') {
        let b = parse_bandwidth(value_of(ls[p]))->0;
        let (rest, q) = bandwidths_at(ls, p + 1)->0;
        lemma_bandwidths_at_read(ls, p + 1);
        lemma_line_of(ls[p], 'b');
        lemma_bandwidth_read(value_of(ls[p]));
        lemma_subrange_cons(ls, p, q);
        assert(bandwidth_lines(seq![b] + rest) =~= seq![ls[p]] + bandwidth_lines(rest));
        assert forall|k: int| 0 <= k < (seq![b] + rest).len() implies !(#[trigger] (seq![b] + rest)[k]).bwtype.contains(':') by {
            if k > 0 {
                assert((seq![b] + rest)[k] == rest[k - 1]);
            }
        }
    } else {
        assert(ls.subrange(p, p) =~= Seq::<Seq<char>>::empty());
        assert(bandwidth_lines(Seq::<BandwidthView>::empty()) =~= Seq::<Seq<char>>::empty());
    }
}

pub proof fn lemma_attributes_at_read(ls: Seq<Seq<char>>, p: int)
    requires
        0 <= p <= ls.len(),
    ensures
        ({
            let (attrs, q) = attributes_at(ls, p);
            &&& p <= q <= ls.len()
            &&& attribute_lines(attrs) == ls.subrange(p, q)
            &&& forall|k: int| 0 <= k < attrs.len() ==> !(#[trigger] attrs[k]).name.contains(':')
        }),
    decreases ls.len() - p,
{
    if has_line(ls, p, 'a') {
        let a = parse_attribute(value_of(ls[p]));
        let (rest, q) = attributes_at(ls, p + 1);
        lemma_attributes_at_read(ls, p + 1);
        lemma_line_of(ls[p], 'a');
        lemma_attribute_read(value_of(ls[p]));
        lemma_subrange_cons(ls, p, q);
        assert(attribute_lines(seq![a] + rest) =~= seq![ls[p]] + attribute_lines(rest));
        assert forall|k: int| 0 <= k < (seq![a] + rest).len() implies !(#[trigger] (seq![a] + rest)[k]).name.contains(':') by {
            if k > 0 {
                assert((seq![a] + rest)[k] == rest[k - 1]);
            }
        }
    } else {
        assert(ls.subrange(p, p) =~= Seq::<Seq<char>>::empty());
        assert(attribute_lines(Seq::<AttributeView>::empty()) =~= Seq::<Seq<char>>::empty());
    }
}

pub proof fn lemma_repeats_at_read(ls: Seq<Seq<char>>, p: int)
    requires
        0 <= p <= ls.len(),
    ensures
        ({
            let (rs, q) = repeats_at(ls, p);
            p <= q <= ls.len() && repeat_lines(rs) == ls.subrange(p, q)
        }),
    decreases ls.len() - p,
{
    if has_line(ls, p, 'r') {
        let (rest, q) = repeats_at(ls, p + 1);
        lemma_repeats_at_read(ls, p + 1);
        lemma_line_of(ls[p], 'r');
        lemma_subrange_cons(ls, p, q);
        assert(repeat_lines(seq![value_of(ls[p])] + rest) =~= seq![ls[p]] + repeat_lines(rest));
    } else {
        assert(ls.subrange(p, p) =~= Seq::<Seq<char>>::empty());
        assert(repeat_lines(Seq::<Seq<char>>::empty()) =~= Seq::<Seq<char>>::empty());
    }
}

pub proof fn lemma_time_lines_prepend(t: TimeView, ts: Seq<TimeView>)
    ensures
        time_lines(seq![t] + ts) == time_section_lines(t) + time_lines(ts),
    decreases ts.len(),
{
    if ts.len() == 0 {
        assert(seq![t] + ts =~= seq![t]);
        assert(seq![t].drop_last() =~= Seq::<TimeView>::empty());
        assert(time_lines(Seq::<TimeView>::empty()) == Seq::<Seq<char>>::empty());
        assert(time_lines(seq![t]) =~= time_section_lines(t) + time_lines(ts));
    } else {
        lemma_time_lines_prepend(t, ts.drop_last());
        assert((seq![t] + ts).drop_last() =~= seq![t] + ts.drop_last());
        assert((seq![t] + ts).last() == ts.last());
        assert(time_lines(seq![t] + ts) =~= time_section_lines(t) + time_lines(ts));
    }
}

pub proof fn lemma_media_lines_prepend(m: MediaView, ms: Seq<MediaView>)
    ensures
        media_lines(seq![m] + ms) == media_section_lines(m) + media_lines(ms),
    decreases ms.len(),
{
    if ms.len() == 0 {
        assert(seq![m] + ms =~= seq![m]);
        assert(seq![m].drop_last() =~= Seq::<MediaView>::empty());
        assert(media_lines(Seq::<MediaView>::empty()) == Seq::<Seq<char>>::empty());
        assert(media_lines(seq![m]) =~= media_section_lines(m) + media_lines(ms));
    } else {
        lemma_media_lines_prepend(m, ms.drop_last());
        assert((seq![m] + ms).drop_last() =~= seq![m] + ms.drop_last());
        assert((seq![m] + ms).last() == ms.last());
        assert(media_lines(seq![m] + ms) =~= media_section_lines(m) + media_lines(ms));
    }
}

pub proof fn lemma_times_at_read(ls: Seq<Seq<char>>, p: int)
    requires
        0 <= p <= ls.len(),
        times_at(ls, p) is Some,
    ensures
        ({
            let (ts, q) = times_at(ls, p)->0;
            p <= q <= ls.len() && time_lines(ts) == ls.subrange(p, q)
        }),
    decreases ls.len() - p,
{
    if has_line(ls, p, 't') {
        let ta = parse_time(value_of(ls[p]))->0;
        let (rs, q1) = repeats_at(ls, p + 1);
        lemma_repeats_at_end(ls, p + 1);
        lemma_repeats_at_read(ls, p + 1);
        let (rest, q) = times_at(ls, q1)->0;
        lemma_times_at_read(ls, q1);
        lemma_line_of(ls[p], 't');
        lemma_time_read(value_of(ls[p]));
        let t = TimeView { time_active: ta, repeat_times: rs };
        lemma_time_lines_prepend(t, rest);
        lemma_subrange_cons(ls, p, q1);
        lemma_subrange_join(ls, p, q1, q);
        assert(time_section_lines(t) =~= ls.subrange(p, q1));
    } else {
        assert(ls.subrange(p, p) =~= Seq::<Seq<char>>::empty());
    }
}

pub proof fn lemma_media_section_at_read(ls: Seq<Seq<char>>, p: int)
    requires
        0 <= p <= ls.len(),
        media_section_at(ls, p) is Some,
    ensures
        ({
            let (m, q) = media_section_at(ls, p)->0;
            &&& p <= q <= ls.len()
            &&& media_section_lines(m) == ls.subrange(p, q)
            &&& media_wf(m)
        }),
{
    let l = parse_media_line(value_of(ls[p]))->0;
    let (title, q1) = opt_text_at(ls, p + 1, 'i');
    lemma_opt_text_read(ls, p + 1, 'i');
    let (c, q2) = connection_at(ls, q1)->0;
    lemma_connection_at_read(ls, q1);
    let (bs, q3) = bandwidths_at(ls, q2)->0;
    lemma_bandwidths_at_read(ls, q2);
    let (attrs, q4) = attributes_at(ls, q3);
    lemma_attributes_at_read(ls, q3);
    lemma_line_of(ls[p], 'm');
    lemma_media_line_read(value_of(ls[p]));
    let (m, q) = media_section_at(ls, p)->0;
    assert(media_text(m) == media_text(media_from_line(l)));
    lemma_subrange_cons(ls, p, q4);
    lemma_subrange_join(ls, p + 1, q1, q4);
    lemma_subrange_join(ls, q1, q2, q4);
    lemma_subrange_join(ls, q2, q3, q4);
    assert(media_section_lines(m) =~= ls.subrange(p, q4));
}

pub proof fn lemma_medias_at_read(ls: Seq<Seq<char>>, p: int)
    requires
        0 <= p <= ls.len(),
        medias_at(ls, p) is Some,
    ensures
        ({
            let (ms, q) = medias_at(ls, p)->0;
            &&& p <= q <= ls.len()
            &&& media_lines(ms) == ls.subrange(p, q)
            &&& forall|k: int| 0 <= k < ms.len() ==> media_wf(#[trigger] ms[k])
        }),
    decreases ls.len() - p,
{
    if has_line(ls, p, 'm') {
        let (m, q1) = media_section_at(ls, p)->0;
        lemma_media_section_at_end(ls, p);
        lemma_media_section_at_read(ls, p);
        let (rest, q) = medias_at(ls, q1)->0;
        lemma_medias_at_read(ls, q1);
        lemma_media_lines_prepend(m, rest);
        lemma_subrange_join(ls, p, q1, q);
        assert forall|k: int| 0 <= k < (seq![m] + rest).len() implies media_wf(#[trigger] (seq![m] + rest)[k]) by {
            if k > 0 {
                assert((seq![m] + rest)[k] == rest[k - 1]);
            }
        }
    } else {
        assert(ls.subrange(p, p) =~= Seq::<Seq<char>>::empty());
        assert(media_lines(Seq::<MediaView>::empty()) == Seq::<Seq<char>>::empty());
    }
}

/// The lines of a description read from lines are those lines.
pub proof fn lemma_session_from_lines_read(ls: Seq<Seq<char>>)
    requires
        session_from_lines(ls) is Some,
    ensures
        session_lines(session_from_lines(ls)->0) == ls,
{
    let sd = session_from_lines(ls)->0;
    lemma_origin_read(value_of(ls[1]));
    lemma_line_of(ls[1], 'o');
    lemma_line_of(ls[2], 's');
    assert(line('v', seq!['0']) =~= ls[0]);
    let (info, p1) = opt_text_at(ls, 3, 'i');
    lemma_opt_text_read(ls, 3, 'i');
    let (uri, p2) = opt_text_at(ls, p1, 'u');
    lemma_opt_text_read(ls, p1, 'u');
    let (email, p3) = opt_text_at(ls, p2, 'e');
    lemma_opt_text_read(ls, p2, 'e');
    let (phone, p4) = opt_text_at(ls, p3, 'p');
    lemma_opt_text_read(ls, p3, 'p');
    let (c, p5) = connection_at(ls, p4)->0;
    lemma_connection_at_read(ls, p4);
    let (bs, p6) = bandwidths_at(ls, p5)->0;
    lemma_bandwidths_at_read(ls, p5);
    let (ts, p7) = times_at(ls, p6)->0;
    lemma_times_at_read(ls, p6);
    let (attrs, p8) = attributes_at(ls, p7);
    lemma_attributes_at_read(ls, p7);
    let (ms, p9) = medias_at(ls, p8)->0;
    lemma_medias_at_read(ls, p8);
    assert(ls.subrange(0, 3) =~= seq![ls[0], ls[1], ls[2]]);
    lemma_subrange_join(ls, 0, 3, p1);
    lemma_subrange_join(ls, 0, p1, p2);
    lemma_subrange_join(ls, 0, p2, p3);
    lemma_subrange_join(ls, 0, p3, p4);
    lemma_subrange_join(ls, 0, p4, p5);
    lemma_subrange_join(ls, 0, p5, p6);
    lemma_subrange_join(ls, 0, p6, p7);
    lemma_subrange_join(ls, 0, p7, p8);
    lemma_subrange_join(ls, 0, p8, p9);
    assert(ls.subrange(0, ls.len() as int) =~= ls);
    assert(session_lines(sd) =~= ls);
}

/// A description read from lines is well formed.
proof fn lemma_session_from_lines_wf(ls: Seq<Seq<char>>)
    requires
        session_from_lines(ls) is Some,
        lines_clean(ls),
    ensures
        session_wf(session_from_lines(ls)->0),
{
    let sd = session_from_lines(ls)->0;
    lemma_session_from_lines_read(ls);
    lemma_origin_read(value_of(ls[1]));
    let (info, p1) = opt_text_at(ls, 3, 'i');
    let (uri, p2) = opt_text_at(ls, p1, 'u');
    let (email, p3) = opt_text_at(ls, p2, 'e');
    let (phone, p4) = opt_text_at(ls, p3, 'p');
    lemma_opt_text_read(ls, 3, 'i');
    lemma_opt_text_read(ls, p1, 'u');
    lemma_opt_text_read(ls, p2, 'e');
    lemma_opt_text_read(ls, p3, 'p');
    let (c, p5) = connection_at(ls, p4)->0;
    lemma_connection_at_read(ls, p4);
    let (bs, p6) = bandwidths_at(ls, p5)->0;
    lemma_bandwidths_at_read(ls, p5);
    let (ts, p7) = times_at(ls, p6)->0;
    lemma_times_at_read(ls, p6);
    let (attrs, p8) = attributes_at(ls, p7);
    lemma_attributes_at_read(ls, p7);
    lemma_medias_at_read(ls, p8);
}

/// Every description that `parse_sdp` reads is well formed: with
/// `lemma_write_then_parse`, reading is the inverse of writing on all the text it accepts.
pub proof fn lemma_parse_wf(s: Seq<char>)
    requires
        parse_sdp(s) is Some,
    ensures
        session_wf(parse_sdp(s)->0),
{
    lemma_split_lines_read(s);
    lemma_session_from_lines_wf(split_lines(s)->0);
}

/// Reading text and writing the description read gives the text back: the text of every
/// description that `parse_sdp` reads is the text it was read from.
pub proof fn lemma_parse_then_write(s: Seq<char>)
    requires
        parse_sdp(s) is Some,
    ensures
        sdp_text(parse_sdp(s)->0) == s,
{
    lemma_split_lines_read(s);
    lemma_session_from_lines_read(split_lines(s)->0);
}


// ---------------------------------------------------------------------------
// The line structure, written then read
// ---------------------------------------------------------------------------

/// The first of the lines is a `<t>=` line.
pub open spec fn first_is(ls: Seq<Seq<char>>, t: char) -> bool {
    ls.len() > 0 && is_line(ls[0], t)
}

proof fn lemma_first_concat(x: Seq<Seq<char>>, y: Seq<Seq<char>>, t: char)
    ensures
        first_is(x + y, t) == if x.len() > 0 {
            first_is(x, t)
        } else {
            first_is(y, t)
        },
{
    if x.len() == 0 {
        assert(x + y =~= y);
    } else {
        assert((x + y)[0] == x[0]);
    }
}

/// Where the lines from `p` on are `x` then `r`: the lines from `p + |x|` on are `r`, and line
/// `p + k` is `x[k]`.
proof fn lemma_suffix(ls: Seq<Seq<char>>, p: int, x: Seq<Seq<char>>, r: Seq<Seq<char>>)
    requires
        0 <= p <= ls.len(),
        ls.subrange(p, ls.len() as int) == x + r,
    ensures
        p + x.len() <= ls.len(),
        ls.subrange(p + x.len(), ls.len() as int) == r,
        forall|k: int| 0 <= k < x.len() ==> ls[p + k] == #[trigger] x[k],
{
    assert((x + r).len() == ls.len() - p);
    assert forall|k: int| 0 <= k < x.len() implies ls[p + k] == #[trigger] x[k] by {
        assert(ls.subrange(p, ls.len() as int)[k] == ls[p + k]);
        assert((x + r)[k] == x[k]);
    }
    assert(ls.subrange(p + x.len(), ls.len() as int) =~= r) by {
        assert forall|k: int| 0 <= k < r.len() implies ls.subrange(p + x.len(), ls.len() as int)[k] == r[k] by {
            assert(ls.subrange(p, ls.len() as int)[x.len() + k] == ls[p + x.len() + k]);
            assert((x + r)[x.len() + k] == r[k]);
        }
    }
}

proof fn lemma_line_is(t: char, v: Seq<char>)
    ensures
        is_line(line(t, v), t),
        value_of(line(t, v)) == v,
        forall|u: char| u != t ==> !is_line(#[trigger] line(t, v), u),
{
    assert(value_of(line(t, v)) =~= v);
}

proof fn lemma_not_first_here(ls: Seq<Seq<char>>, p: int, r: Seq<Seq<char>>, t: char)
    requires
        0 <= p <= ls.len(),
        ls.subrange(p, ls.len() as int) == r,
        !first_is(r, t),
    ensures
        !has_line(ls, p, t),
{
    if p < ls.len() {
        assert(r[0] == ls[p]);
    }
}

pub proof fn lemma_opt_text_write(ls: Seq<Seq<char>>, p: int, t: char, o: Option<Seq<char>>, r: Seq<Seq<char>>)
    requires
        0 <= p <= ls.len(),
        ls.subrange(p, ls.len() as int) == opt_lines(t, o) + r,
        !first_is(r, t),
    ensures
        opt_text_at(ls, p, t) == (o, p + opt_lines(t, o).len()),
{
    lemma_suffix(ls, p, opt_lines(t, o), r);
    match o {
        Some(v) => {
            lemma_line_is(t, v);
            assert(ls[p + 0] == opt_lines(t, o)[0]);
        },
        None => {
            assert(opt_lines(t, o) + r =~= r);
            lemma_not_first_here(ls, p, r, t);
        },
    }
}

pub proof fn lemma_connection_write(ls: Seq<Seq<char>>, p: int, c: Option<ConnectionView>, r: Seq<Seq<char>>)
    requires
        0 <= p <= ls.len(),
        ls.subrange(p, ls.len() as int) == connection_lines(c) + r,
        !first_is(r, 'c'),
        c matches Some(x) ==> no_space(x.address),
    ensures
        connection_at(ls, p) == Some((c, p + connection_lines(c).len())),
{
    lemma_suffix(ls, p, connection_lines(c), r);
    match c {
        Some(x) => {
            lemma_line_is('c', connection_text(x));
            assert(ls[p + 0] == connection_lines(c)[0]);
            lemma_connection_roundtrip(x);
        },
        None => {
            assert(connection_lines(c) + r =~= r);
            lemma_not_first_here(ls, p, r, 'c');
        },
    }
}

pub proof fn lemma_bandwidths_write(ls: Seq<Seq<char>>, p: int, bs: Seq<BandwidthView>, r: Seq<Seq<char>>)
    requires
        0 <= p <= ls.len(),
        ls.subrange(p, ls.len() as int) == bandwidth_lines(bs) + r,
        !first_is(r, 'b'),
        forall|k: int| 0 <= k < bs.len() ==> !(#[trigger] bs[k]).bwtype.contains(':'),
    ensures
        bandwidths_at(ls, p) == Some((bs, p + bs.len())),
    decreases bs.len(),
{
    lemma_suffix(ls, p, bandwidth_lines(bs), r);
    if bs.len() == 0 {
        assert(bandwidth_lines(bs) + r =~= r);
        lemma_not_first_here(ls, p, r, 'b');
    } else {
        let rest = bs.drop_first();
        lemma_line_is('b', bandwidth_text(bs[0]));
        assert(ls[p + 0] == bandwidth_lines(bs)[0]);
        lemma_bandwidth_roundtrip(bs[0]);
        assert(bandwidth_lines(bs) =~= seq![bandwidth_lines(bs)[0]] + bandwidth_lines(rest));
        assert(ls.subrange(p + 1, ls.len() as int) =~= bandwidth_lines(rest) + r) by {
            assert(seq![bandwidth_lines(bs)[0]] + (bandwidth_lines(rest) + r) =~= bandwidth_lines(bs) + r);
            lemma_suffix(ls, p, seq![bandwidth_lines(bs)[0]], bandwidth_lines(rest) + r);
        }
        assert forall|k: int| 0 <= k < rest.len() implies !(#[trigger] rest[k]).bwtype.contains(':') by {
            assert(rest[k] == bs[k + 1]);
        }
        lemma_bandwidths_write(ls, p + 1, rest, r);
        assert(seq![bs[0]] + rest =~= bs);
    }
}

pub proof fn lemma_attributes_write(ls: Seq<Seq<char>>, p: int, attrs: Seq<AttributeView>, r: Seq<Seq<char>>)
    requires
        0 <= p <= ls.len(),
        ls.subrange(p, ls.len() as int) == attribute_lines(attrs) + r,
        !first_is(r, 'a'),
        forall|k: int| 0 <= k < attrs.len() ==> !(#[trigger] attrs[k]).name.contains(':'),
    ensures
        attributes_at(ls, p) == (attrs, p + attrs.len()),
    decreases attrs.len(),
{
    lemma_suffix(ls, p, attribute_lines(attrs), r);
    if attrs.len() == 0 {
        assert(attribute_lines(attrs) + r =~= r);
        lemma_not_first_here(ls, p, r, 'a');
    } else {
        let rest = attrs.drop_first();
        lemma_line_is('a', attribute_text(attrs[0]));
        assert(ls[p + 0] == attribute_lines(attrs)[0]);
        lemma_attribute_roundtrip(attrs[0]);
        assert(attribute_lines(attrs) =~= seq![attribute_lines(attrs)[0]] + attribute_lines(rest));
        assert(ls.subrange(p + 1, ls.len() as int) =~= attribute_lines(rest) + r) by {
            assert(seq![attribute_lines(attrs)[0]] + (attribute_lines(rest) + r) =~= attribute_lines(attrs) + r);
            lemma_suffix(ls, p, seq![attribute_lines(attrs)[0]], attribute_lines(rest) + r);
        }
        assert forall|k: int| 0 <= k < rest.len() implies !(#[trigger] rest[k]).name.contains(':') by {
            assert(rest[k] == attrs[k + 1]);
        }
        lemma_attributes_write(ls, p + 1, rest, r);
        assert(seq![attrs[0]] + rest =~= attrs);
    }
}

pub proof fn lemma_repeats_write(ls: Seq<Seq<char>>, p: int, rs: Seq<Seq<char>>, r: Seq<Seq<char>>)
    requires
        0 <= p <= ls.len(),
        ls.subrange(p, ls.len() as int) == repeat_lines(rs) + r,
        !first_is(r, 'r'),
    ensures
        repeats_at(ls, p) == (rs, p + rs.len()),
    decreases rs.len(),
{
    lemma_suffix(ls, p, repeat_lines(rs), r);
    if rs.len() == 0 {
        assert(repeat_lines(rs) + r =~= r);
        lemma_not_first_here(ls, p, r, 'r');
    } else {
        let rest = rs.drop_first();
        lemma_line_is('r', rs[0]);
        assert(ls[p + 0] == repeat_lines(rs)[0]);
        assert(repeat_lines(rs) =~= seq![repeat_lines(rs)[0]] + repeat_lines(rest));
        assert(ls.subrange(p + 1, ls.len() as int) =~= repeat_lines(rest) + r) by {
            assert(seq![repeat_lines(rs)[0]] + (repeat_lines(rest) + r) =~= repeat_lines(rs) + r);
            lemma_suffix(ls, p, seq![repeat_lines(rs)[0]], repeat_lines(rest) + r);
        }
        lemma_repeats_write(ls, p + 1, rest, r);
        assert(seq![rs[0]] + rest =~= rs);
    }
}

pub proof fn lemma_time_lines_first(ts: Seq<TimeView>)
    ensures
        ts.len() > 0 ==> first_is(time_lines(ts), 't'),
        ts.len() == 0 ==> time_lines(ts).len() == 0,
{
    if ts.len() > 0 {
        lemma_time_lines_prepend(ts[0], ts.drop_first());
        assert(seq![ts[0]] + ts.drop_first() =~= ts);
        lemma_line_is('t', time_text(ts[0].time_active));
        assert(time_lines(ts)[0] == time_section_lines(ts[0])[0]);
    }
}

pub proof fn lemma_times_write(ls: Seq<Seq<char>>, p: int, ts: Seq<TimeView>, r: Seq<Seq<char>>)
    requires
        0 <= p <= ls.len(),
        ls.subrange(p, ls.len() as int) == time_lines(ts) + r,
        !first_is(r, 't'),
        !first_is(r, 'r'),
    ensures
        times_at(ls, p) == Some((ts, p + time_lines(ts).len())),
    decreases ts.len(),
{
    lemma_suffix(ls, p, time_lines(ts), r);
    if ts.len() == 0 {
        assert(time_lines(ts) + r =~= r);
        lemma_not_first_here(ls, p, r, 't');
    } else {
        let t = ts[0];
        let rest = ts.drop_first();
        lemma_time_lines_prepend(t, rest);
        assert(seq![t] + rest =~= ts);
        let tl = line('t', time_text(t.time_active));
        lemma_line_is('t', time_text(t.time_active));
        assert(ls[p + 0] == time_lines(ts)[0]);
        assert(time_lines(ts)[0] == tl);
        lemma_time_roundtrip(t.time_active);
        let after = time_lines(rest) + r;
        assert(time_lines(ts) + r =~= seq![tl] + (repeat_lines(t.repeat_times) + after));
        lemma_suffix(ls, p, seq![tl], repeat_lines(t.repeat_times) + after);
        lemma_time_lines_first(rest);
        lemma_first_concat(time_lines(rest), r, 'r');
        if rest.len() > 0 {
            lemma_line_is('t', time_text(rest[0].time_active));
            lemma_time_lines_prepend(rest[0], rest.drop_first());
            assert(seq![rest[0]] + rest.drop_first() =~= rest);
            assert(time_lines(rest)[0] == tl_of(rest[0]));
        }
        lemma_repeats_write(ls, p + 1, t.repeat_times, after);
        lemma_suffix(ls, p + 1, repeat_lines(t.repeat_times), after);
        lemma_times_write(ls, p + 1 + t.repeat_times.len(), rest, r);
    }
}

spec fn tl_of(t: TimeView) -> Seq<char> {
    line('t', time_text(t.time_active))
}


proof fn lemma_not_first_concat(x: Seq<Seq<char>>, y: Seq<Seq<char>>, t: char)
    requires
        !first_is(x, t),
        x.len() == 0 ==> !first_is(y, t),
    ensures
        !first_is(x + y, t),
{
    lemma_first_concat(x, y, t);
}

/// The lines of each part begin with the part's own type.
proof fn lemma_part_firsts(
    o: Option<Seq<char>>,
    u: char,
    c: Option<ConnectionView>,
    bs: Seq<BandwidthView>,
    attrs: Seq<AttributeView>,
    t: char,
)
    ensures
        t != u ==> !first_is(opt_lines(u, o), t),
        t != 'c' ==> !first_is(connection_lines(c), t),
        t != 'b' ==> !first_is(bandwidth_lines(bs), t),
        t != 'a' ==> !first_is(attribute_lines(attrs), t),
{
    if let Some(v) = o {
        lemma_line_is(u, v);
    }
    if let Some(x) = c {
        lemma_line_is('c', connection_text(x));
    }
    if bs.len() > 0 {
        lemma_line_is('b', bandwidth_text(bs[0]));
        assert(bandwidth_lines(bs)[0] == line('b', bandwidth_text(bs[0])));
    }
    if attrs.len() > 0 {
        lemma_line_is('a', attribute_text(attrs[0]));
        assert(attribute_lines(attrs)[0] == line('a', attribute_text(attrs[0])));
    }
}

/// What a media section must satisfy for its text to read back as it: formats and the
/// connection address hold no space, bandwidth types and attribute names no colon.
pub open spec fn media_wf(m: MediaView) -> bool {
    &&& forall|k: int| 0 <= k < m.media_formats.len() ==> no_space(#[trigger] m.media_formats[k])
    &&& (m.connection matches Some(c) ==> no_space(c.address))
    &&& forall|k: int| 0 <= k < m.bandwidths.len() ==> !(#[trigger] m.bandwidths[k]).bwtype.contains(':')
    &&& forall|k: int| 0 <= k < m.attributes.len() ==> !(#[trigger] m.attributes[k]).name.contains(':')
}

proof fn lemma_media_lines_first(ms: Seq<MediaView>)
    ensures
        ms.len() > 0 ==> first_is(media_lines(ms), 'm'),
        ms.len() == 0 ==> media_lines(ms).len() == 0,
{
    if ms.len() > 0 {
        lemma_media_lines_prepend(ms[0], ms.drop_first());
        assert(seq![ms[0]] + ms.drop_first() =~= ms);
        lemma_line_is('m', media_text(ms[0]));
        assert(media_lines(ms)[0] == media_section_lines(ms[0])[0]);
    }
}

pub proof fn lemma_media_section_write(ls: Seq<Seq<char>>, p: int, m: MediaView, r: Seq<Seq<char>>)
    requires
        0 <= p <= ls.len(),
        ls.subrange(p, ls.len() as int) == media_section_lines(m) + r,
        !first_is(r, 'i'),
        !first_is(r, 'c'),
        !first_is(r, 'b'),
        !first_is(r, 'a'),
        media_wf(m),
    ensures
        media_section_at(ls, p) == Some((m, p + media_section_lines(m).len())),
{
    let ml = seq![line('m', media_text(m))];
    let ti = opt_lines('i', m.title);
    let co = connection_lines(m.connection);
    let bw = bandwidth_lines(m.bandwidths);
    let at = attribute_lines(m.attributes);
    let r4 = at + r;
    let r3 = bw + r4;
    let r2 = co + r3;
    let r1 = ti + r2;
    assert(media_section_lines(m) + r =~= ml + r1);
    lemma_suffix(ls, p, ml, r1);
    lemma_line_is('m', media_text(m));
    assert(ls[p + 0] == ml[0]);
    lemma_media_line_roundtrip(m);
    lemma_part_firsts(m.title, 'i', m.connection, m.bandwidths, m.attributes, 'i');
    lemma_part_firsts(m.title, 'i', m.connection, m.bandwidths, m.attributes, 'c');
    lemma_part_firsts(m.title, 'i', m.connection, m.bandwidths, m.attributes, 'b');
    lemma_part_firsts(m.title, 'i', m.connection, m.bandwidths, m.attributes, 'a');
    lemma_not_first_concat(at, r, 'i');
    lemma_not_first_concat(bw, r4, 'i');
    lemma_not_first_concat(co, r3, 'i');
    lemma_not_first_concat(at, r, 'c');
    lemma_not_first_concat(bw, r4, 'c');
    lemma_not_first_concat(at, r, 'b');
    lemma_opt_text_write(ls, p + 1, 'i', m.title, r2);
    lemma_suffix(ls, p + 1, ti, r2);
    let q1 = p + 1 + ti.len();
    lemma_connection_write(ls, q1, m.connection, r3);
    lemma_suffix(ls, q1, co, r3);
    let q2 = q1 + co.len();
    lemma_bandwidths_write(ls, q2, m.bandwidths, r4);
    lemma_suffix(ls, q2, bw, r4);
    let q3 = q2 + bw.len();
    lemma_attributes_write(ls, q3, m.attributes, r);
    assert(bw.len() == m.bandwidths.len());
    assert(at.len() == m.attributes.len());
}

pub proof fn lemma_medias_write(ls: Seq<Seq<char>>, p: int, ms: Seq<MediaView>, r: Seq<Seq<char>>)
    requires
        0 <= p <= ls.len(),
        ls.subrange(p, ls.len() as int) == media_lines(ms) + r,
        !first_is(r, 'm'),
        !first_is(r, 'i'),
        !first_is(r, 'c'),
        !first_is(r, 'b'),
        !first_is(r, 'a'),
        forall|k: int| 0 <= k < ms.len() ==> media_wf(#[trigger] ms[k]),
    ensures
        medias_at(ls, p) == Some((ms, p + media_lines(ms).len())),
    decreases ms.len(),
{
    lemma_suffix(ls, p, media_lines(ms), r);
    if ms.len() == 0 {
        assert(media_lines(ms) + r =~= r);
        lemma_not_first_here(ls, p, r, 'm');
    } else {
        let m = ms[0];
        let rest = ms.drop_first();
        lemma_media_lines_prepend(m, rest);
        assert(seq![m] + rest =~= ms);
        let after = media_lines(rest) + r;
        assert(media_lines(ms) + r =~= media_section_lines(m) + after);
        lemma_media_lines_first(rest);
        lemma_not_first_concat(media_lines(rest), r, 'i');
        lemma_not_first_concat(media_lines(rest), r, 'c');
        lemma_not_first_concat(media_lines(rest), r, 'b');
        lemma_not_first_concat(media_lines(rest), r, 'a');
        lemma_line_is('m', media_text(m));
        lemma_media_section_write(ls, p, m, after);
        lemma_suffix(ls, p, media_section_lines(m), after);
        assert forall|k: int| 0 <= k < rest.len() implies media_wf(#[trigger] rest[k]) by {
            assert(rest[k] == ms[k + 1]);
        }
        lemma_medias_write(ls, p + media_section_lines(m).len(), rest, r);
        assert(media_lines(ms).len() == media_section_lines(m).len() + media_lines(rest).len());
        assert(ls[p] == ls[p + 0]);
    }
}


/// What a description must satisfy for its text to read back as it: no field holds a line
/// break; at least one `t=` line; the origin's user and address, and connection addresses,
/// hold no space; bandwidth types and attribute names no colon; formats no space.
pub open spec fn session_wf(sd: SessionView) -> bool {
    &&& lines_clean(session_lines(sd))
    &&& sd.time.len() >= 1
    &&& no_space(sd.origin.user)
    &&& no_space(sd.origin.unicast_address)
    &&& (sd.connection matches Some(c) ==> no_space(c.address))
    &&& forall|k: int| 0 <= k < sd.bandwidths.len() ==> !(#[trigger] sd.bandwidths[k]).bwtype.contains(':')
    &&& forall|k: int| 0 <= k < sd.attributes.len() ==> !(#[trigger] sd.attributes[k]).name.contains(':')
    &&& forall|k: int| 0 <= k < sd.media.len() ==> media_wf(#[trigger] sd.media[k])
}

spec fn runs_ram(sd: SessionView) -> Seq<Seq<char>> {
    attribute_lines(sd.attributes) + media_lines(sd.media)
}

spec fn runs_t(sd: SessionView) -> Seq<Seq<char>> {
    time_lines(sd.time) + runs_ram(sd)
}

spec fn runs_b(sd: SessionView) -> Seq<Seq<char>> {
    bandwidth_lines(sd.bandwidths) + runs_t(sd)
}

spec fn runs_c(sd: SessionView) -> Seq<Seq<char>> {
    connection_lines(sd.connection) + runs_b(sd)
}

spec fn runs_p(sd: SessionView) -> Seq<Seq<char>> {
    opt_lines('p', sd.phone_number) + runs_c(sd)
}

spec fn runs_e(sd: SessionView) -> Seq<Seq<char>> {
    opt_lines('e', sd.email_address) + runs_p(sd)
}

spec fn runs_u(sd: SessionView) -> Seq<Seq<char>> {
    opt_lines('u', sd.uri) + runs_e(sd)
}

spec fn runs_i(sd: SessionView) -> Seq<Seq<char>> {
    opt_lines('i', sd.session_information) + runs_u(sd)
}

proof fn lemma_runs_firsts(sd: SessionView)
    requires
        sd.time.len() >= 1,
    ensures
        !first_is(runs_u(sd), 'i'),
        !first_is(runs_e(sd), 'u'),
        !first_is(runs_p(sd), 'e'),
        !first_is(runs_c(sd), 'p'),
        !first_is(runs_b(sd), 'c'),
        !first_is(runs_t(sd), 'b'),
        !first_is(runs_ram(sd), 't'),
        !first_is(runs_ram(sd), 'r'),
        !first_is(media_lines(sd.media), 'a'),
{
    lemma_time_lines_first(sd.time);
    lemma_media_lines_first(sd.media);
    let pt = time_lines(sd.time);
    let ram = runs_ram(sd);
    assert forall|x: char| x != 't' implies !first_is(runs_t(sd), x) by {
        lemma_first_concat(pt, ram, x);
    }
    assert forall|x: char| x != 't' && x != 'b' implies !first_is(runs_b(sd), x) by {
        lemma_part_firsts(sd.phone_number, 'p', sd.connection, sd.bandwidths, sd.attributes, x);
        lemma_not_first_concat(bandwidth_lines(sd.bandwidths), runs_t(sd), x);
    }
    assert forall|x: char| x != 't' && x != 'b' && x != 'c' implies !first_is(runs_c(sd), x) by {
        lemma_part_firsts(sd.phone_number, 'p', sd.connection, sd.bandwidths, sd.attributes, x);
        lemma_not_first_concat(connection_lines(sd.connection), runs_b(sd), x);
    }
    assert forall|x: char| x != 't' && x != 'b' && x != 'c' && x != 'p' implies !first_is(runs_p(sd), x) by {
        lemma_part_firsts(sd.phone_number, 'p', sd.connection, sd.bandwidths, sd.attributes, x);
        lemma_not_first_concat(opt_lines('p', sd.phone_number), runs_c(sd), x);
    }
    assert forall|x: char| x != 't' && x != 'b' && x != 'c' && x != 'p' && x != 'e' implies !first_is(
        runs_e(sd),
        x,
    ) by {
        lemma_part_firsts(sd.email_address, 'e', sd.connection, sd.bandwidths, sd.attributes, x);
        lemma_not_first_concat(opt_lines('e', sd.email_address), runs_p(sd), x);
    }
    assert forall|x: char|
        x != 't' && x != 'b' && x != 'c' && x != 'p' && x != 'e' && x != 'u' implies !first_is(
        runs_u(sd),
        x,
    ) by {
        lemma_part_firsts(sd.uri, 'u', sd.connection, sd.bandwidths, sd.attributes, x);
        lemma_not_first_concat(opt_lines('u', sd.uri), runs_e(sd), x);
    }
    lemma_part_firsts(sd.phone_number, 'p', sd.connection, sd.bandwidths, sd.attributes, 't');
    lemma_part_firsts(sd.phone_number, 'p', sd.connection, sd.bandwidths, sd.attributes, 'r');
    lemma_not_first_concat(attribute_lines(sd.attributes), media_lines(sd.media), 't');
    lemma_not_first_concat(attribute_lines(sd.attributes), media_lines(sd.media), 'r');
}

proof fn lemma_assoc(a: Seq<Seq<char>>, b: Seq<Seq<char>>, c: Seq<Seq<char>>)
    ensures
        (a + b) + c == a + (b + c),
{
    assert((a + b) + c =~= a + (b + c));
}

proof fn lemma_session_lines_split(sd: SessionView)
    ensures
        session_lines(sd) == seq![line('v', seq!['0']), line('o', origin_text(sd.origin)), line('s', sd.session_name)]
            + runs_i(sd),
{
    let h = seq![line('v', seq!['0']), line('o', origin_text(sd.origin)), line('s', sd.session_name)];
    let pi = opt_lines('i', sd.session_information);
    let pu = opt_lines('u', sd.uri);
    let pe = opt_lines('e', sd.email_address);
    let pp = opt_lines('p', sd.phone_number);
    let pc = connection_lines(sd.connection);
    let pb = bandwidth_lines(sd.bandwidths);
    let pt = time_lines(sd.time);
    let pa = attribute_lines(sd.attributes);
    let pm = media_lines(sd.media);
    lemma_assoc(h + pi + pu + pe + pp + pc + pb + pt, pa, pm);
    lemma_assoc(h + pi + pu + pe + pp + pc + pb, pt, pa + pm);
    lemma_assoc(h + pi + pu + pe + pp + pc, pb, pt + (pa + pm));
    lemma_assoc(h + pi + pu + pe + pp, pc, pb + (pt + (pa + pm)));
    lemma_assoc(h + pi + pu + pe, pp, pc + (pb + (pt + (pa + pm))));
    lemma_assoc(h + pi + pu, pe, pp + (pc + (pb + (pt + (pa + pm)))));
    lemma_assoc(h + pi, pu, pe + (pp + (pc + (pb + (pt + (pa + pm))))));
    lemma_assoc(h, pi, pu + (pe + (pp + (pc + (pb + (pt + (pa + pm)))))));
}

proof fn lemma_session_head(sd: SessionView)
    requires
        no_space(sd.origin.user),
        no_space(sd.origin.unicast_address),
    ensures
        session_lines(sd).len() >= 3,
        session_lines(sd)[0] == seq!['v', '=', '0'],
        has_line(session_lines(sd), 1, 'o'),
        has_line(session_lines(sd), 2, 's'),
        parse_origin(value_of(session_lines(sd)[1])) == Some(sd.origin),
        value_of(session_lines(sd)[2]) == sd.session_name,
        session_lines(sd).subrange(3, session_lines(sd).len() as int) == runs_i(sd),
{
    let ls = session_lines(sd);
    let h = seq![line('v', seq!['0']), line('o', origin_text(sd.origin)), line('s', sd.session_name)];
    lemma_session_lines_split(sd);
    assert(ls.subrange(0, ls.len() as int) =~= ls);
    lemma_suffix(ls, 0, h, runs_i(sd));
    lemma_line_is('v', seq!['0']);
    lemma_line_is('o', origin_text(sd.origin));
    lemma_line_is('s', sd.session_name);
    assert(ls[0] == h[0]);
    assert(ls[1] == h[1]);
    assert(ls[2] == h[2]);
    assert(line('v', seq!['0']) =~= seq!['v', '=', '0']);
    lemma_origin_roundtrip(sd.origin);
}

proof fn lemma_session_write(sd: SessionView)
    requires
        session_wf(sd),
    ensures
        session_from_lines(session_lines(sd)) == Some(sd),
{
    let ls = session_lines(sd);
    lemma_session_head(sd);
    lemma_runs_firsts(sd);
    let pi = opt_lines('i', sd.session_information);
    let pu = opt_lines('u', sd.uri);
    let pe = opt_lines('e', sd.email_address);
    let pp = opt_lines('p', sd.phone_number);
    let pc = connection_lines(sd.connection);
    let pb = bandwidth_lines(sd.bandwidths);
    let pt = time_lines(sd.time);
    let pa = attribute_lines(sd.attributes);
    let pm = media_lines(sd.media);
    let e: Seq<Seq<char>> = Seq::empty();
    assert(pm + e =~= pm);
    let p1: int = 3int + pi.len();
    let p2: int = p1 + pu.len();
    let p3: int = p2 + pe.len();
    let p4: int = p3 + pp.len();
    let p5: int = p4 + pc.len();
    let p6: int = p5 + pb.len();
    let p7: int = p6 + pt.len();
    let p8: int = p7 + pa.len();
    lemma_opt_text_write(ls, 3, 'i', sd.session_information, runs_u(sd));
    lemma_suffix(ls, 3, pi, runs_u(sd));
    lemma_opt_text_write(ls, p1, 'u', sd.uri, runs_e(sd));
    lemma_suffix(ls, p1, pu, runs_e(sd));
    lemma_opt_text_write(ls, p2, 'e', sd.email_address, runs_p(sd));
    lemma_suffix(ls, p2, pe, runs_p(sd));
    lemma_opt_text_write(ls, p3, 'p', sd.phone_number, runs_c(sd));
    lemma_suffix(ls, p3, pp, runs_c(sd));
    lemma_connection_write(ls, p4, sd.connection, runs_b(sd));
    lemma_suffix(ls, p4, pc, runs_b(sd));
    lemma_bandwidths_write(ls, p5, sd.bandwidths, runs_t(sd));
    lemma_suffix(ls, p5, pb, runs_t(sd));
    lemma_times_write(ls, p6, sd.time, runs_ram(sd));
    lemma_suffix(ls, p6, pt, runs_ram(sd));
    lemma_attributes_write(ls, p7, sd.attributes, pm);
    lemma_suffix(ls, p7, pa, pm);
    lemma_medias_write(ls, p8, sd.media, e);
    assert(pb.len() == sd.bandwidths.len());
    assert(pa.len() == sd.attributes.len());
    assert(ls.len() == p8 + pm.len());
}

/// Writing a well-formed description and reading the text back gives the description.
pub proof fn lemma_write_then_parse(sd: SessionView)
    requires
        session_wf(sd),
    ensures
        parse_sdp(sdp_text(sd)) == Some(sd),
{
    lemma_split_lines_roundtrip(session_lines(sd));
    lemma_session_write(sd);
}

} // verus!
