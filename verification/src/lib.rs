pub mod codec;
pub mod encode;
pub mod error;
pub mod media;
pub mod negotiator;
pub mod invite_session;
pub mod net;
pub mod text;
pub mod util;
pub mod scan;
pub mod offer;
pub mod rtp;
pub mod sdp;
pub mod sdp_parser;
pub mod session;
pub mod sip;
pub mod sdp_laws;
