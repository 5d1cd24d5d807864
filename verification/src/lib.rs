//! Verified core of a game streaming host: Annex-B parsing, the GSI1 input
//! protocol, stream configuration, frame layouts and delivery decisions.
pub mod annexb;
pub mod le;
pub mod input;
pub mod shared;
pub mod net;
pub mod encode;
pub mod capture;
pub mod text;
pub mod session;
