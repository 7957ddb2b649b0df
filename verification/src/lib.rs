//! Core of a bridge between a chat service and a terminal chat client: a live
//! mirror of the remote servers and channels, the naming and mention rules,
//! and the decisions that keep the client's buffers in step with the mirror.
//!
//! Nothing here performs input or output. The driver around this library
//! receives events, hands them to the dispatcher, and carries out the
//! commands that come back.

pub mod command;
pub mod connection;
pub mod event;
pub mod event_proc;
pub mod host;
pub mod keyed;
pub mod message;
pub mod session;
pub mod state;
pub mod text;
pub mod types;
pub mod update;
pub mod util;
