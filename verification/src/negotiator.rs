//! The SDP offer/answer negotiator (RFC 3264).

use vstd::prelude::*;
use vstd::string::*;
use crate::error::{Error, Result};
use crate::offer::{SdpOfferParams, offer_view, build_offer};
use crate::sdp::{
    Attribute, AttributeView, Direction, MediaDescription, MediaView, SessionDescription,
    SessionView, attributes_view, clone_times, medias_view, strings_view,
};
use crate::text::{parse_u8, parse_u8_text, str_is};
use crate::util::random_u64;

verus! {

broadcast use vstd::string::group_string_axioms;

/// SDP negotiation state.
#[derive(Debug, Clone, Copy, PartialEq, Eq, Structural)]
pub enum NegotiationState {
    Initial,
    LocalOffer,
    RemoteOffer,
    Ready,
    Done,
}

/// Holds the offers and the answer of one offer/answer exchange.
pub struct Negotiator {
    remote_offer: Option<SessionDescription>,
    local_offer: Option<SessionDescription>,
    answer: Option<SessionDescription>,
    state: NegotiationState,
}

pub struct NegotiatorView {
    pub remote_offer: Option<SessionView>,
    pub local_offer: Option<SessionView>,
    pub answer: Option<SessionView>,
    pub state: NegotiationState,
}

pub open spec fn opt_sd_view(o: Option<SessionDescription>) -> Option<SessionView> {
    match o {
        Some(s) => Some(s@),
        None => None,
    }
}

/// What each state guarantees to be present.
pub open spec fn negotiator_wf(n: NegotiatorView) -> bool {
    &&& n.state == NegotiationState::LocalOffer ==> n.local_offer is Some
    &&& n.state == NegotiationState::RemoteOffer ==> n.remote_offer is Some
    &&& n.state == NegotiationState::Ready ==> n.local_offer is Some && n.remote_offer is Some
    &&& n.state == NegotiationState::Done ==> n.answer is Some
}

impl View for Negotiator {
    type V = NegotiatorView;

    closed spec fn view(&self) -> NegotiatorView {
        NegotiatorView {
            remote_offer: opt_sd_view(self.remote_offer),
            local_offer: opt_sd_view(self.local_offer),
            answer: opt_sd_view(self.answer),
            state: self.state,
        }
    }
}

// ---------------------------------------------------------------------------
// Generating the answer (RFC 3264 section 6)
// ---------------------------------------------------------------------------

/// The direction that an attribute name stands for, if any.
pub open spec fn direction_of(name: Seq<char>) -> Option<Direction> {
    if name == "recvonly"@ {
        Some(Direction::RecvOnly)
    } else if name == "sendrecv"@ {
        Some(Direction::SendRecv)
    } else if name == "sendonly"@ {
        Some(Direction::SendOnly)
    } else if name == "inactive"@ {
        Some(Direction::Inactive)
    } else {
        None
    }
}

/// The direction of the first direction attribute, if any.
pub open spec fn find_direction(attrs: Seq<AttributeView>) -> Option<Direction>
    decreases attrs.len(),
{
    if attrs.len() == 0 {
        None
    } else {
        match direction_of(attrs[0].name) {
            Some(d) => Some(d),
            None => find_direction(attrs.drop_first()),
        }
    }
}

/// The direction of an answer stream, given the offered (remote) direction and the local one.
pub open spec fn answer_direction(remote: Option<Direction>, local: Option<Direction>) -> Option<Direction> {
    match remote {
        Some(Direction::SendOnly) => match local {
            Some(Direction::SendRecv) | Some(Direction::RecvOnly) => Some(Direction::RecvOnly),
            _ => Some(Direction::Inactive),
        },
        Some(Direction::Inactive) => Some(Direction::Inactive),
        Some(Direction::RecvOnly) => match local {
            Some(Direction::SendRecv) | Some(Direction::SendOnly) => Some(Direction::SendOnly),
            _ => Some(Direction::Inactive),
        },
        Some(Direction::SendRecv) => Some(Direction::SendRecv),
        None => None,
    }
}

pub open spec fn is_direction_attribute(a: AttributeView) -> bool {
    direction_of(a.name) is Some
}

/// The attributes of an answer stream: the local ones, where the offer names a direction with
/// the local direction attributes replaced by the answer's direction at the end.
pub open spec fn answer_attributes(local: Seq<AttributeView>, remote: Seq<AttributeView>) -> Seq<AttributeView> {
    match answer_direction(find_direction(remote), find_direction(local)) {
        Some(d) => local.filter(|a: AttributeView| !is_direction_attribute(a)).push(
            AttributeView { name: d.text(), value: None },
        ),
        None => local,
    }
}

/// How the formats of a local stream fare against the offered formats.
#[derive(PartialEq, Eq, Structural)]
pub enum FormatCheck {
    /// Every format is a static payload type (below 96) that the offer holds.
    Accepted,
    /// A format is not a payload type number.
    Invalid,
    /// A format is a dynamic payload type or one the offer lacks: not handled.
    Unsupported,
}

/// Checks the formats in order; the first one that is not accepted decides.
pub open spec fn check_formats(fs: Seq<Seq<char>>, offered: Seq<Seq<char>>) -> FormatCheck
    decreases fs.len(),
{
    if fs.len() == 0 {
        FormatCheck::Accepted
    } else {
        match parse_u8_text(fs[0]) {
            None => FormatCheck::Invalid,
            Some(pt) => if pt < 96 && offered.contains(fs[0]) {
                check_formats(fs.drop_first(), offered)
            } else {
                FormatCheck::Unsupported
            },
        }
    }
}

/// How one pair of local and offered streams fares.
pub enum StreamOutcome {
    /// A port is zero: no answer stream.
    Skipped,
    /// The answer stream.
    Answered(MediaView),
    /// A format is not a payload type number.
    Invalid,
    /// Media types or transports differ, or a format is not handled.
    Unsupported,
}

pub open spec fn answer_stream(local: MediaView, remote: MediaView) -> StreamOutcome {
    if local.media_type != remote.media_type || local.proto != remote.proto {
        StreamOutcome::Unsupported
    } else if remote.port == 0 || local.port == 0 {
        StreamOutcome::Skipped
    } else {
        match check_formats(local.media_formats, remote.media_formats) {
            FormatCheck::Invalid => StreamOutcome::Invalid,
            FormatCheck::Unsupported => StreamOutcome::Unsupported,
            FormatCheck::Accepted => StreamOutcome::Answered(
                MediaView { attributes: answer_attributes(local.attributes, remote.attributes), ..local },
            ),
        }
    }
}

pub enum AnswerOutcome {
    Answered(Seq<MediaView>),
    Invalid,
    Unsupported,
}

/// Pairs the local and offered streams in order, from position `i` to the end of the shorter
/// list; the first pair that is invalid or unsupported decides.
pub open spec fn answer_streams(local: Seq<MediaView>, remote: Seq<MediaView>, i: int) -> AnswerOutcome
    decreases local.len() - i,
{
    if i < 0 || i >= local.len() || i >= remote.len() {
        AnswerOutcome::Answered(Seq::empty())
    } else {
        match answer_stream(local[i], remote[i]) {
            StreamOutcome::Invalid => AnswerOutcome::Invalid,
            StreamOutcome::Unsupported => AnswerOutcome::Unsupported,
            StreamOutcome::Skipped => answer_streams(local, remote, i + 1),
            StreamOutcome::Answered(m) => match answer_streams(local, remote, i + 1) {
                AnswerOutcome::Answered(ms) => AnswerOutcome::Answered(seq![m] + ms),
                other => other,
            },
        }
    }
}

/// The outcome of answering `remote` with `local`.
pub open spec fn answer_outcome(local: SessionView, remote: SessionView) -> AnswerOutcome {
    answer_streams(local.media, remote.media, 0)
}

/// The answer session: the local description with the answered streams and the offer's
/// timing.
pub open spec fn answer_session(local: SessionView, remote: SessionView, media: Seq<MediaView>) -> SessionView {
    SessionView { media: media, time: remote.time, ..local }
}

/// Whether generating an answer would reach a case the negotiator does not handle.
pub open spec fn answer_unsupported(n: NegotiatorView) -> bool {
    n.state == NegotiationState::Ready && answer_outcome(n.local_offer->0, n.remote_offer->0) is Unsupported
}

// ---------------------------------------------------------------------------
// The steps of a negotiation
// ---------------------------------------------------------------------------

/// A negotiator before any offer.
pub open spec fn initial_negotiation() -> NegotiatorView {
    NegotiatorView { remote_offer: None, local_offer: None, answer: None, state: NegotiationState::Initial }
}

/// Taking a remote offer: from `Initial` to `RemoteOffer`, from `LocalOffer` to `Ready`; not
/// possible in other states.
pub open spec fn set_remote_step(n: NegotiatorView, remote: SessionView) -> Option<NegotiatorView> {
    match n.state {
        NegotiationState::Initial => Some(
            NegotiatorView { remote_offer: Some(remote), state: NegotiationState::RemoteOffer, ..n },
        ),
        NegotiationState::LocalOffer => Some(
            NegotiatorView { remote_offer: Some(remote), state: NegotiationState::Ready, ..n },
        ),
        _ => None,
    }
}

/// Taking a local offer: from `Initial` to `LocalOffer`, from `RemoteOffer` to `Ready`; not
/// possible in other states.
pub open spec fn set_local_step(n: NegotiatorView, local: SessionView) -> Option<NegotiatorView> {
    match n.state {
        NegotiationState::Initial => Some(
            NegotiatorView { local_offer: Some(local), state: NegotiationState::LocalOffer, ..n },
        ),
        NegotiationState::RemoteOffer => Some(
            NegotiatorView { local_offer: Some(local), state: NegotiationState::Ready, ..n },
        ),
        _ => None,
    }
}

/// Generating an offer: the local offer held already, or else `offer`; the state becomes
/// `LocalOffer`.
pub open spec fn offer_step(n: NegotiatorView, offer: SessionView) -> NegotiatorView {
    NegotiatorView {
        local_offer: match n.local_offer {
            Some(o) => Some(o),
            None => Some(offer),
        },
        state: NegotiationState::LocalOffer,
        ..n
    }
}

pub enum AnswerStep {
    /// The negotiator after the answer.
    Answered(NegotiatorView),
    /// Not in state `Ready`.
    WrongState,
    /// A local format is not a payload type number.
    InvalidFormat,
    /// A case the negotiator does not handle.
    Unsupported,
}

/// Generating the answer: only in state `Ready`; holds the answer and moves to `Done`.
pub open spec fn answer_step(n: NegotiatorView) -> AnswerStep {
    if n.state != NegotiationState::Ready {
        AnswerStep::WrongState
    } else {
        let local = n.local_offer->0;
        let remote = n.remote_offer->0;
        match answer_outcome(local, remote) {
            AnswerOutcome::Answered(ms) => AnswerStep::Answered(
                NegotiatorView {
                    answer: Some(answer_session(local, remote, ms)),
                    state: NegotiationState::Done,
                    ..n
                },
            ),
            AnswerOutcome::Invalid => AnswerStep::InvalidFormat,
            AnswerOutcome::Unsupported => AnswerStep::Unsupported,
        }
    }
}

/// Taking the answer to the local offer: only in state `LocalOffer`; holds it and moves to
/// `Done`.
pub open spec fn process_answer_step(n: NegotiatorView, answer: SessionView) -> Option<NegotiatorView> {
    if n.state == NegotiationState::LocalOffer {
        Some(NegotiatorView { answer: Some(answer), state: NegotiationState::Done, ..n })
    } else {
        None
    }
}

// ---------------------------------------------------------------------------
// Laws of the negotiation
// ---------------------------------------------------------------------------

/// The two offers can be taken in either order: from the initial state, remote then local and
/// local then remote both reach `Ready` holding the two offers.
pub proof fn lemma_offers_in_either_order(local: SessionView, remote: SessionView)
    ensures
        ({
            let ready = NegotiatorView {
                remote_offer: Some(remote),
                local_offer: Some(local),
                answer: None,
                state: NegotiationState::Ready,
            };
            &&& set_remote_step(initial_negotiation(), remote) matches Some(a) && set_local_step(a, local)
                == Some(ready)
            &&& set_local_step(initial_negotiation(), local) matches Some(b) && set_remote_step(b, remote)
                == Some(ready)
        }),
{
}

/// Every step keeps what each state guarantees to be present.
pub proof fn lemma_steps_keep_wf(n: NegotiatorView, sd: SessionView)
    requires
        negotiator_wf(n),
    ensures
        set_remote_step(n, sd) matches Some(m) ==> negotiator_wf(m),
        set_local_step(n, sd) matches Some(m) ==> negotiator_wf(m),
        negotiator_wf(offer_step(n, sd)),
        answer_step(n) matches AnswerStep::Answered(m) ==> negotiator_wf(m),
        process_answer_step(n, sd) matches Some(m) ==> negotiator_wf(m),
{
}

/// An answer is generated once: after it, no further answer and no further offer is taken.
pub proof fn lemma_answer_once(n: NegotiatorView, sd: SessionView)
    requires
        answer_step(n) is Answered,
    ensures
        answer_step(n)->Answered_0.state == NegotiationState::Done,
        answer_step(answer_step(n)->Answered_0) is WrongState,
        set_local_step(answer_step(n)->Answered_0, sd) is None,
        set_remote_step(answer_step(n)->Answered_0, sd) is None,
{
}

/// Generating an offer twice keeps the first offer.
pub proof fn lemma_offer_kept(n: NegotiatorView, first: SessionView, second: SessionView)
    ensures
        offer_step(offer_step(n, first), second) == offer_step(n, first),
{
}

/// The answering direction is compatible with the offered one (RFC 3264 section 6.1): the
/// answerer sends only where the offerer receives, and receives only where the offerer sends.
pub proof fn lemma_answer_direction_compatible(remote: Direction, local: Option<Direction>)
    ensures
        answer_direction(Some(remote), local) matches Some(a) && {
            &&& (remote == Direction::SendOnly || remote == Direction::Inactive) ==> a
                != Direction::SendOnly && a != Direction::SendRecv
            &&& (remote == Direction::RecvOnly || remote == Direction::Inactive) ==> a
                != Direction::RecvOnly && a != Direction::SendRecv
        },
{
}

/// Accepted formats are static payload types that the offer holds.
pub proof fn lemma_accepted_formats_offered(fs: Seq<Seq<char>>, offered: Seq<Seq<char>>)
    requires
        check_formats(fs, offered) == FormatCheck::Accepted,
    ensures
        forall|k: int|
            0 <= k < fs.len() ==> offered.contains(#[trigger] fs[k]) && (parse_u8_text(fs[k]) matches Some(
                pt,
            ) && pt < 96),
    decreases fs.len(),
{
    if fs.len() > 0 {
        lemma_accepted_formats_offered(fs.drop_first(), offered);
        assert forall|k: int| 0 <= k < fs.len() implies offered.contains(#[trigger] fs[k])
            && (parse_u8_text(fs[k]) matches Some(pt) && pt < 96) by {
            if k > 0 {
                assert(fs[k] == fs.drop_first()[k - 1]);
            }
        }
    }
}

/// Each answered stream answers an offered stream of the same media type and transport, on
/// non-zero ports, with formats the offer holds; there are no more answered streams than
/// offered ones.
pub proof fn lemma_answer_streams_offered(local: Seq<MediaView>, remote: Seq<MediaView>, i: int)
    requires
        0 <= i,
        answer_streams(local, remote, i) is Answered,
    ensures
        ({
            let ms = answer_streams(local, remote, i)->Answered_0;
            &&& ms.len() <= remote.len() - i || ms.len() == 0
            &&& forall|k: int|
                0 <= k < ms.len() ==> exists|j: int|
                    i <= j < local.len() && j < remote.len() && #[trigger] ms[k] == MediaView {
                        attributes: answer_attributes(local[j].attributes, remote[j].attributes),
                        ..local[j]
                    } && local[j].media_type == remote[j].media_type && local[j].proto == remote[j].proto
                        && local[j].port != 0 && remote[j].port != 0 && forall|f: int|
                        0 <= f < local[j].media_formats.len() ==> remote[j].media_formats.contains(
                            #[trigger] local[j].media_formats[f],
                        )
        }),
    decreases local.len() - i,
{
    if i < local.len() && i < remote.len() {
        let rest = answer_streams(local, remote, i + 1);
        match answer_stream(local[i], remote[i]) {
            StreamOutcome::Skipped => {
                lemma_answer_streams_offered(local, remote, i + 1);
            },
            StreamOutcome::Answered(m) => {
                lemma_answer_streams_offered(local, remote, i + 1);
                lemma_accepted_formats_offered(local[i].media_formats, remote[i].media_formats);
                let ms = answer_streams(local, remote, i)->Answered_0;
                let ms1 = rest->Answered_0;
                assert(ms == seq![m] + ms1);
                assert forall|k: int| 0 <= k < ms.len() implies exists|j: int|
                    i <= j < local.len() && j < remote.len() && #[trigger] ms[k] == MediaView {
                        attributes: answer_attributes(local[j].attributes, remote[j].attributes),
                        ..local[j]
                    } && local[j].media_type == remote[j].media_type && local[j].proto == remote[j].proto
                        && local[j].port != 0 && remote[j].port != 0 && forall|f: int|
                        0 <= f < local[j].media_formats.len() ==> remote[j].media_formats.contains(
                            #[trigger] local[j].media_formats[f],
                        ) by {
                    if k == 0 {
                        assert(ms[0] == m);
                    } else {
                        assert(ms[k] == ms1[k - 1]);
                    }
                }
            },
            _ => {},
        }
    }
}

/// Each direction is written as its own attribute name (RFC 3264 section 6.1): reading the
/// written name back gives the same direction, so no direction is ever written as another.
pub proof fn lemma_direction_names(d: Direction)
    ensures
        direction_of(d.text()) == Some(d),
{
    reveal_strlit("sendrecv");
    reveal_strlit("sendonly");
    reveal_strlit("recvonly");
    reveal_strlit("inactive");
    assert("sendonly"@[0] != "recvonly"@[0]);
    assert("sendrecv"@[0] != "recvonly"@[0]);
    assert("inactive"@[0] != "recvonly"@[0]);
    assert("inactive"@[0] != "sendrecv"@[0]);
    assert("inactive"@[0] != "sendonly"@[0]);
    assert("sendonly"@[4] != "sendrecv"@[4]);
}

/// Whether a direction sends media.
pub open spec fn sends(d: Direction) -> bool {
    d == Direction::SendRecv || d == Direction::SendOnly
}

/// Whether a direction receives media.
pub open spec fn receives(d: Direction) -> bool {
    d == Direction::SendRecv || d == Direction::RecvOnly
}

/// The answering direction mirrors the offered one (RFC 3264 section 6.1). A two-way offer is
/// answered two-way. Otherwise the answerer sends exactly where the offerer receives and the
/// local side names a sending direction, and receives exactly where the offerer sends and the
/// local side names a receiving direction. Where the offer names no direction, neither does
/// the answer.
pub proof fn lemma_answer_direction_mirror(remote: Direction, local: Option<Direction>)
    ensures
        answer_direction(None, local) is None,
        answer_direction(Some(remote), local) matches Some(a) && {
            &&& remote == Direction::SendRecv ==> sends(a) && receives(a)
            &&& remote != Direction::SendRecv ==> (sends(a) <==> (receives(remote) && (local matches Some(
                l,
            ) && sends(l))))
            &&& remote != Direction::SendRecv ==> (receives(a) <==> (sends(remote) && (local matches Some(
                l,
            ) && receives(l))))
        },
{
}

proof fn lemma_find_direction_last(s: Seq<AttributeView>, x: AttributeView)
    requires
        forall|i: int| 0 <= i < s.len() ==> !is_direction_attribute(#[trigger] s[i]),
    ensures
        find_direction(s.push(x)) == direction_of(x.name),
    decreases s.len(),
{
    if s.len() > 0 {
        assert(s.push(x)[0] == s[0]);
        assert(!is_direction_attribute(s[0]));
        assert(s.push(x).drop_first() =~= s.drop_first().push(x));
        assert forall|i: int| 0 <= i < s.drop_first().len() implies !is_direction_attribute(
            #[trigger] s.drop_first()[i],
        ) by {
            assert(s.drop_first()[i] == s[i + 1]);
        }
        lemma_find_direction_last(s.drop_first(), x);
    } else {
        assert(s.push(x)[0] == x);
        assert(s.push(x).drop_first() =~= Seq::<AttributeView>::empty());
        assert(find_direction(Seq::<AttributeView>::empty()) is None);
    }
}

/// The answer stream keeps the local attributes (RFC 3264 section 6). Where the offer names no
/// direction they are the local ones unchanged. Otherwise every local attribute that is not a
/// direction comes through, in order, and a single direction attribute follows them, last: the
/// answering direction.
pub proof fn lemma_answer_attributes_keep_local(local: Seq<AttributeView>, remote: Seq<AttributeView>)
    ensures
        find_direction(remote) is None ==> answer_attributes(local, remote) == local,
        find_direction(remote) is Some ==> {
            let ans = answer_attributes(local, remote);
            &&& ans.len() >= 1
            &&& ans.drop_last() == local.filter(|a: AttributeView| !is_direction_attribute(a))
            &&& forall|i: int|
                0 <= i < local.len() && !is_direction_attribute(local[i]) ==> ans.drop_last().contains(
                    #[trigger] local[i],
                )
            &&& forall|i: int| 0 <= i < ans.len() - 1 ==> !is_direction_attribute(#[trigger] ans[i])
            &&& ans.last().value is None
            &&& find_direction(ans) == answer_direction(find_direction(remote), find_direction(local))
        },
{
    let keep = |a: AttributeView| !is_direction_attribute(a);
    if let Some(rd) = find_direction(remote) {
        let d = answer_direction(find_direction(remote), find_direction(local))->0;
        let kept = local.filter(keep);
        let x = AttributeView { name: d.text(), value: None };
        let ans = answer_attributes(local, remote);
        assert(ans == kept.push(x));
        assert(ans.drop_last() =~= kept);
        assert forall|i: int| 0 <= i < local.len() && !is_direction_attribute(local[i]) implies ans.drop_last().contains(
            #[trigger] local[i],
        ) by {
            local.lemma_filter_contains(keep, i);
        }
        assert forall|i: int| 0 <= i < kept.len() implies !is_direction_attribute(#[trigger] kept[i]) by {
            local.lemma_filter_pred(keep, i);
        }
        assert forall|i: int| 0 <= i < ans.len() - 1 implies !is_direction_attribute(#[trigger] ans[i]) by {
            assert(ans[i] == kept[i]);
        }
        lemma_find_direction_last(kept, x);
        lemma_direction_names(d);
    }
}

/// A remote offer is taken only from `Initial` or `LocalOffer`; taking it holds it and keeps
/// the local offer and the answer, and a second remote offer right after is refused. In
/// `RemoteOffer`, `Ready` and `Done` a remote offer is refused.
pub proof fn lemma_remote_offer_taken_once(n: NegotiatorView, first: SessionView, second: SessionView)
    ensures
        set_remote_step(n, first) is Some <==> (n.state == NegotiationState::Initial || n.state
            == NegotiationState::LocalOffer),
        set_remote_step(n, first) matches Some(m) ==> m.remote_offer == Some(first) && m.local_offer
            == n.local_offer && m.answer == n.answer && set_remote_step(m, second) is None,
{
}

/// A local offer is taken only from `Initial` or `RemoteOffer`; taking it holds it and keeps
/// the remote offer and the answer, and a second local offer right after is refused. In
/// `LocalOffer`, `Ready` and `Done` a local offer is refused.
pub proof fn lemma_local_offer_taken_once(n: NegotiatorView, first: SessionView, second: SessionView)
    ensures
        set_local_step(n, first) is Some <==> (n.state == NegotiationState::Initial || n.state
            == NegotiationState::RemoteOffer),
        set_local_step(n, first) matches Some(m) ==> m.local_offer == Some(first) && m.remote_offer
            == n.remote_offer && m.answer == n.answer && set_local_step(m, second) is None,
{
}

fn attribute_direction(a: &Attribute) -> (r: Option<Direction>)
    ensures
        r == direction_of(a@.name),
{
    let n = a.name.as_str();
    if str_is(n, "recvonly") {
        Some(Direction::RecvOnly)
    } else if str_is(n, "sendrecv") {
        Some(Direction::SendRecv)
    } else if str_is(n, "sendonly") {
        Some(Direction::SendOnly)
    } else if str_is(n, "inactive") {
        Some(Direction::Inactive)
    } else {
        None
    }
}

fn first_direction(attrs: &Vec<Attribute>) -> (r: Option<Direction>)
    ensures
        r == find_direction(attributes_view(attrs@)),
{
    let ghost all = attributes_view(attrs@);
    let mut i: usize = 0;
    assert(all.skip(0) =~= all);
    while i < attrs.len()
        invariant
            i <= attrs.len(),
            all == attributes_view(attrs@),
            find_direction(all) == find_direction(all.skip(i as int)),
        decreases attrs.len() - i,
    {
        let d = attribute_direction(&attrs[i]);
        assert(all.skip(i as int)[0] == all[i as int]);
        assert(all.skip(i as int).drop_first() =~= all.skip(i + 1));
        if d.is_some() {
            return d;
        }
        i = i + 1;
    }
    assert(all.skip(i as int) =~= Seq::<AttributeView>::empty());
    None
}

fn compute_answer_direction(remote: Option<Direction>, local: Option<Direction>) -> (r: Option<Direction>)
    ensures
        r == answer_direction(remote, local),
{
    match remote {
        Some(Direction::SendOnly) => match local {
            Some(Direction::SendRecv) | Some(Direction::RecvOnly) => Some(Direction::RecvOnly),
            _ => Some(Direction::Inactive),
        },
        Some(Direction::Inactive) => Some(Direction::Inactive),
        Some(Direction::RecvOnly) => match local {
            Some(Direction::SendRecv) | Some(Direction::SendOnly) => Some(Direction::SendOnly),
            _ => Some(Direction::Inactive),
        },
        Some(Direction::SendRecv) => Some(Direction::SendRecv),
        None => None,
    }
}

fn build_answer_attributes(local: &Vec<Attribute>, remote: &Vec<Attribute>) -> (r: Vec<Attribute>)
    ensures
        attributes_view(r@) == answer_attributes(attributes_view(local@), attributes_view(remote@)),
{
    let rd = first_direction(remote);
    let ld = first_direction(local);
    let ghost lv = attributes_view(local@);
    let ghost keep = |a: AttributeView| !is_direction_attribute(a);
    match compute_answer_direction(rd, ld) {
        Some(d) => {
            let mut out: Vec<Attribute> = Vec::new();
            let mut i: usize = 0;
            assert(lv.take(0) =~= Seq::<AttributeView>::empty());
            while i < local.len()
                invariant
                    i <= local.len(),
                    lv == attributes_view(local@),
                    keep == (|a: AttributeView| !is_direction_attribute(a)),
                    attributes_view(out@) == lv.take(i as int).filter(keep),
                decreases local.len() - i,
            {
                let a = &local[i];
                let ghost before = out@;
                proof {
                    assert(lv.take(i + 1) =~= lv.take(i as int).push(lv[i as int]));
                    lv.take(i as int).lemma_filter_push(lv[i as int], keep);
                }
                let ad = attribute_direction(a);
                assert(lv[i as int] == a@);
                assert(is_direction_attribute(a@) == (ad is Some));
                assert(keep(a@) == !is_direction_attribute(a@));
                if ad.is_none() {
                    let c = a.clone();
                    out.push(c);
                    assert(attributes_view(out@) =~= attributes_view(before).push(c@));
                }
                i = i + 1;
            }
            assert(lv.take(local.len() as int) =~= lv);
            let name = d.to_string();
            let x = Attribute { name, value: None };
            let ghost before = out@;
            out.push(x);
            assert(attributes_view(out@) =~= attributes_view(before).push(x@));
            out
        },
        None => crate::sdp::clone_attributes(local),
    }
}

fn check_stream_formats(local: &Vec<String>, remote: &Vec<String>) -> (r: FormatCheck)
    ensures
        r == check_formats(strings_view(local@), strings_view(remote@)),
{
    let ghost fs = strings_view(local@);
    let ghost offered = strings_view(remote@);
    let mut i: usize = 0;
    assert(fs.skip(0) =~= fs);
    while i < local.len()
        invariant
            i <= local.len(),
            fs == strings_view(local@),
            offered == strings_view(remote@),
            check_formats(fs, offered) == check_formats(fs.skip(i as int), offered),
        decreases local.len() - i,
    {
        let f = &local[i];
        assert(fs.skip(i as int)[0] == f@);
        assert(fs.skip(i as int).drop_first() =~= fs.skip(i + 1));
        match parse_u8(f.as_str()) {
            None => {
                return FormatCheck::Invalid;
            },
            Some(pt) => {
                if pt >= 96 || !contains_string(remote, f) {
                    return FormatCheck::Unsupported;
                }
            },
        }
        i = i + 1;
    }
    assert(fs.skip(i as int) =~= Seq::<Seq<char>>::empty());
    FormatCheck::Accepted
}

fn contains_string(v: &Vec<String>, s: &String) -> (r: bool)
    ensures
        r == strings_view(v@).contains(s@),
{
    let mut i: usize = 0;
    while i < v.len()
        invariant
            i <= v.len(),
            forall|k: int| 0 <= k < i ==> v@[k]@ != s@,
        decreases v.len() - i,
    {
        if v[i] == *s {
            assert(strings_view(v@)[i as int] == s@);
            return true;
        }
        i = i + 1;
    }
    assert forall|k: int| 0 <= k < strings_view(v@).len() implies strings_view(v@)[k] != s@ by {
        assert(strings_view(v@)[k] == v@[k]@);
    }
    false
}

impl Default for Negotiator {
    fn default() -> (r: Self)
        ensures
            r@ == (NegotiatorView {
                remote_offer: None,
                local_offer: None,
                answer: None,
                state: NegotiationState::Initial,
            }),
    {
        Negotiator::new()
    }
}

impl Negotiator {
    #[verifier::type_invariant]
    closed spec fn inv(self) -> bool {
        negotiator_wf(self@)
    }

    /// A negotiator before any offer.
    pub fn new() -> (r: Self)
        ensures
            r@ == (NegotiatorView {
                remote_offer: None,
                local_offer: None,
                answer: None,
                state: NegotiationState::Initial,
            }),
    {
        Negotiator { remote_offer: None, local_offer: None, answer: None, state: NegotiationState::Initial }
    }

    /// A negotiator that holds a local offer.
    pub fn with_local(local: SessionDescription) -> (r: Self)
        ensures
            r@ == (NegotiatorView {
                remote_offer: None,
                local_offer: Some(local@),
                answer: None,
                state: NegotiationState::LocalOffer,
            }),
    {
        Negotiator {
            local_offer: Some(local),
            state: NegotiationState::LocalOffer,
            answer: None,
            remote_offer: None,
        }
    }

    /// A negotiator that holds a remote offer.
    pub fn with_remote(remote: SessionDescription) -> (r: Self)
        ensures
            r@ == (NegotiatorView {
                remote_offer: Some(remote@),
                local_offer: None,
                answer: None,
                state: NegotiationState::RemoteOffer,
            }),
    {
        Negotiator {
            remote_offer: Some(remote),
            state: NegotiationState::RemoteOffer,
            answer: None,
            local_offer: None,
        }
    }

    pub fn state(&self) -> (r: NegotiationState)
        ensures
            r == self@.state,
    {
        self.state
    }

    /// Records the remote offer: from `Initial` to `RemoteOffer`, from `LocalOffer` to `Ready`;
    /// in any other state fails with `ErrInvalidNegoState` and changes nothing.
    pub fn set_remote_offer(&mut self, remote: SessionDescription) -> (r: Result<()>)
        ensures
            match set_remote_step(old(self)@, remote@) {
                Some(n) => r is Ok && final(self)@ == n,
                None => r matches Err(Error::ErrInvalidNegoState) && final(self)@ == old(self)@,
            },
    {
        proof {
            use_type_invariant(&*self);
        }
        let next = match self.state {
            NegotiationState::Initial => NegotiationState::RemoteOffer,
            NegotiationState::LocalOffer => NegotiationState::Ready,
            _ => {
                return Err(Error::ErrInvalidNegoState);
            },
        };
        self.remote_offer = Some(remote);
        self.state = next;
        Ok(())
    }

    /// Records the local offer: from `Initial` to `LocalOffer`, from `RemoteOffer` to `Ready`;
    /// in any other state fails with `ErrInvalidNegoState` and changes nothing.
    pub fn set_local_offer(&mut self, local: SessionDescription) -> (r: Result<()>)
        ensures
            match set_local_step(old(self)@, local@) {
                Some(n) => r is Ok && final(self)@ == n,
                None => r matches Err(Error::ErrInvalidNegoState) && final(self)@ == old(self)@,
            },
    {
        proof {
            use_type_invariant(&*self);
        }
        let next = match self.state {
            NegotiationState::Initial => NegotiationState::LocalOffer,
            NegotiationState::RemoteOffer => NegotiationState::Ready,
            _ => {
                return Err(Error::ErrInvalidNegoState);
            },
        };
        self.local_offer = Some(local);
        self.state = next;
        Ok(())
    }

    /// Generates the local offer from `params` (RFC 3264 section 5) unless one is held
    /// already, with a random session id and version, and moves to `LocalOffer`. Returns the
    /// local offer.
    pub fn generate_offer(&mut self, params: SdpOfferParams) -> (r: &SessionDescription)
        ensures
            final(self)@.local_offer == Some(r@),
            exists|id: u64, version: u64|
                #![trigger offer_view(params@, id, version)]
                final(self)@ == offer_step(old(self)@, offer_view(params@, id, version)),
    {
        proof {
            use_type_invariant(&*self);
        }
        let ghost p = params@;
        let ghost before = self@;
        if self.local_offer.is_none() {
            let session_id = random_u64();
            let session_version = random_u64();
            self.local_offer = Some(build_offer(params, session_id, session_version));
            self.state = NegotiationState::LocalOffer;
            assert(self@ == offer_step(before, offer_view(p, session_id, session_version)));
        } else {
            self.state = NegotiationState::LocalOffer;
            assert(self@ == offer_step(before, offer_view(p, 0, 0)));
        }
        self.local_offer.as_ref().unwrap()
    }

    /// An offer generated from `params` with a random session id and version; the negotiator
    /// is left as it is.
    pub fn create_offer(&self, params: &SdpOfferParams) -> (r: SessionDescription)
        ensures
            exists|id: u64, version: u64| r@ == offer_view(params@, id, version),
    {
        let session_id = random_u64();
        let session_version = random_u64();
        build_offer(params.clone(), session_id, session_version)
    }

    /// Generates the answer to the remote offer from the local description (RFC 3264
    /// section 6), in state `Ready` only. The streams are paired in order; a pair with a zero
    /// port gives no answer stream; an answer stream keeps the local formats, and where the
    /// offer names a direction, carries the answering direction in place of the local one.
    /// On success holds the answer and moves to `Done`.
    #[verifier::loop_isolation(false)]
    pub fn generate_answer(&mut self) -> (r: Result<&SessionDescription>)
        requires
            !answer_unsupported(old(self)@),
        ensures
            match answer_step(old(self)@) {
                AnswerStep::Answered(n) => r matches Ok(a) && final(self)@ == n && n.answer == Some(a@),
                AnswerStep::WrongState => r matches Err(Error::ErrInvalidNegoState) && final(self)@ == old(self)@,
                _ => r matches Err(Error::ErrInvalidPayloadType) && final(self)@ == old(self)@,
            },
    {
        proof {
            use_type_invariant(&*self);
        }
        if self.state != NegotiationState::Ready {
            return Err(Error::ErrInvalidNegoState);
        }
        let answer = {
            let remote_offer = self.remote_offer.as_ref().unwrap();
            let local_offer = self.local_offer.as_ref().unwrap();
            let ghost lm = medias_view(local_offer.media@);
            let ghost rm = medias_view(remote_offer.media@);
            let n = if local_offer.media.len() < remote_offer.media.len() {
                local_offer.media.len()
            } else {
                remote_offer.media.len()
            };
            let mut media: Vec<MediaDescription> = Vec::new();
            let mut i: usize = 0;
            assert(medias_view(media@) =~= Seq::<MediaView>::empty());
            assert(medias_view(media@) + Seq::<MediaView>::empty() =~= medias_view(media@));
            while i < n
                invariant
                    i <= n,
                    n <= local_offer.media.len(),
                    n <= remote_offer.media.len(),
                    lm == medias_view(local_offer.media@),
                    rm == medias_view(remote_offer.media@),
                    !(answer_streams(lm, rm, 0) is Unsupported),
                    answer_streams(lm, rm, 0) == match answer_streams(lm, rm, i as int) {
                        AnswerOutcome::Answered(ms) => AnswerOutcome::Answered(medias_view(media@) + ms),
                        other => other,
                    },
                decreases n - i,
            {
                let local = &local_offer.media[i];
                let remote = &remote_offer.media[i];
                assert(lm[i as int] == local@ && rm[i as int] == remote@);
                if local.media_type != remote.media_type || local.proto != remote.proto {
                    assert(answer_streams(lm, rm, i as int) is Unsupported);
                    return Err(Error::ErrInvalidPayloadType);
                }
                if remote.port == 0 || local.port == 0 {
                    i = i + 1;
                    continue;
                }
                match check_stream_formats(&local.media_formats, &remote.media_formats) {
                    FormatCheck::Invalid => {
                        return Err(Error::ErrInvalidPayloadType);
                    },
                    FormatCheck::Unsupported => {
                        assert(answer_streams(lm, rm, i as int) is Unsupported);
                        return Err(Error::ErrInvalidPayloadType);
                    },
                    FormatCheck::Accepted => {},
                }
                let mut m = local.clone();
                m.attributes = build_answer_attributes(&local.attributes, &remote.attributes);
                let ghost before = media@;
                let ghost mv = m@;
                media.push(m);
                proof {
                    assert(medias_view(media@) =~= medias_view(before).push(mv));
                    assert(answer_stream(local@, remote@) == StreamOutcome::Answered(mv));
                    match answer_streams(lm, rm, i + 1) {
                        AnswerOutcome::Answered(ms) => {
                            assert(medias_view(before) + (seq![mv] + ms) =~= medias_view(media@) + ms);
                        },
                        _ => {},
                    }
                }
                i = i + 1;
            }
            assert(answer_streams(lm, rm, i as int) == AnswerOutcome::Answered(Seq::<MediaView>::empty()));
            assert(medias_view(media@) + Seq::<MediaView>::empty() =~= medias_view(media@));
            let mut answer = local_offer.clone();
            answer.media = media;
            answer.time = clone_times(&remote_offer.time);
            answer
        };
        self.answer = Some(answer);
        self.state = NegotiationState::Done;
        Ok(self.answer.as_ref().unwrap())
    }

    /// Takes the remote answer to the local offer (RFC 3264 section 7): in state `LocalOffer`
    /// holds it as the answer and moves to `Done`; in any other state fails with
    /// `ErrInvalidNegoState` and changes nothing.
    pub fn process_answer(&mut self, remote: SessionDescription) -> (r: Result<()>)
        ensures
            match process_answer_step(old(self)@, remote@) {
                Some(n) => r is Ok && final(self)@ == n,
                None => r matches Err(Error::ErrInvalidNegoState) && final(self)@ == old(self)@,
            },
    {
        proof {
            use_type_invariant(&*self);
        }
        if self.state != NegotiationState::LocalOffer {
            return Err(Error::ErrInvalidNegoState);
        }
        self.answer = Some(remote);
        self.state = NegotiationState::Done;
        Ok(())
    }

    pub fn local_offer(&self) -> (r: Option<&SessionDescription>)
        ensures
            match r {
                Some(x) => self@.local_offer == Some(x@),
                None => self@.local_offer is None,
            },
    {
        self.local_offer.as_ref()
    }

    pub fn remote_offer(&self) -> (r: Option<&SessionDescription>)
        ensures
            match r {
                Some(x) => self@.remote_offer == Some(x@),
                None => self@.remote_offer is None,
            },
    {
        self.remote_offer.as_ref()
    }

    pub fn answer(&self) -> (r: Option<&SessionDescription>)
        ensures
            match r {
                Some(x) => self@.answer == Some(x@),
                None => self@.answer is None,
            },
    {
        self.answer.as_ref()
    }
}

} // verus!
