# rssip

SIP session set-up with SDP offer/answer (RFC 3261, RFC 3264, RFC 4566), verified with Verus.

- `src/sdp.rs`: the session description model and its text form; `src/sdp_parser.rs` reads the
  text back; `src/sdp_laws.rs` proves that reading and writing are inverse.
- `src/offer.rs`, `src/codec.rs`, `src/net.rs`: generating offers from media streams and codecs.
- `src/negotiator.rs`: the offer/answer state machine and answer generation, with its laws.
- `src/session.rs`, `src/invite_session.rs`: the decisions of a SIP session around the
  negotiation; `src/sip.rs` holds the parts of SIP messages they use.
- `app/`: the I/O side — socket addresses, bodies, and the task that runs an established session.
