//! A chat room in the terminal, over TCP: one side hosts the room, the others
//! join it. This crate holds the verified part: the wire formats, the
//! window's layout decisions, and what each side does with every event.
pub mod text;
pub mod utilities;
pub mod framing;
pub mod chat_window;
pub mod modo;
pub mod server;
pub mod client;

pub use chat_window::{ChatWindow, TerminalMessage};
