//! A one-slot, turn-taking mailbox laid over a byte region that two processes
//! share.
//!
//! Byte 0 of the region is the ownership flag: a nonzero value gives the turn
//! to the engine side, zero to the editor side. The rest is the payload, which
//! holds one command framed as UTF-8 text: its name and fields joined by
//! `##DELIM##`, then NUL padding.
//!
//! - [`text`]: splitting UTF-8 bytes at an ASCII separator, and the facts about
//!   UTF-8 that make the pieces text again.
//! - [`frame`]: the commands, their encoding into a payload and decoding out of
//!   one, and the law that decoding undoes encoding.
//! - [`mailbox`]: one side's turn: reading the flag, taking the message,
//!   clearing the payload, writing a reply and handing the turn over.
pub mod frame;
pub mod mailbox;
pub mod text;
