//! A telnet codec and the decisions of a small telnet greeting service.
//!
//! `codes` holds the command and option bytes, `data` the items of a telnet
//! stream, `decode` and `encode` the codec over a `BytesMut` buffer, `laws`
//! what holds of them together, `service` the session that answers a peer,
//! and `session_laws` what holds of a session over a whole connection.
mod buffer;
pub mod codes;
pub mod data;
pub mod decode;
pub mod encode;
pub mod laws;
pub mod seqs;
pub mod service;
pub mod session_laws;

pub use buffer::bytes_mut_contents;
pub use codes::{TelnetCommand, TelnetOption};
pub use data::{TelnetData, TelnetError, TelnetSubnegotiationResponse};
pub use decode::{DecodeHazard, Telnet};
pub use encode::encoded_len;
pub use service::{parse_cursor_report, render_hongbao, Action, Event, Screen, Session};
