//! A lock-step, block-oriented file-transfer client core (TFTP style).
//!
//! `msg` holds the classic on-the-wire codec, `tftp2` the message types of
//! the alternate length-delimited framing, `session` the per-transfer
//! state machine, and `client` the facade a caller constructs.

pub mod bytebuf;
pub mod client;
pub mod msg;
pub mod session;
pub mod tftp2;

pub use client::ClienteTFTP;
pub use session::Estado;
pub use session::Evento;
pub use session::Ipv4;
pub use session::Sessao;
pub use session::Status;
