//! Fast file sharing over UDP: the wire format, the bookkeeping of the
//! receiving and the sending side, and the rules that tie them together.

pub mod bytes;
pub mod calls;
pub mod digest;
pub mod file_generator;
pub mod network;
pub mod protocol;
pub mod ranges;
pub mod text;
pub mod tui;

