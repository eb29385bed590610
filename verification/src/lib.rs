//! Instrument a running process and record what its script says.
//!
//! A capture attaches to a target process, loads a script into it and hands
//! the script's messages to a handler. This library holds what such a program
//! decides and computes; opening devices, threads and files are the caller's.
//!
//! - [`capture`]: assembling a session, and its course from opening the device
//!   to announcing the end.
//! - [`target`], [`discover`]: what to attach to, and finding it by name.
//! - [`event`]: from the toolkit's messages to normalized events.
//! - [`record`]: the capture format; writing, reading and listing captures.
//! - [`error`], [`json`], [`text`], [`cli`]: shared pieces.

pub mod capture;
pub mod cli;
pub mod discover;
pub mod error;
pub mod event;
pub mod json;
pub mod record;
pub mod target;
pub mod text;

pub use capture::handle::CaptureHandle;
pub use capture::handler::Handler;
pub use capture::{Capture, CaptureBuilder};
pub use error::Error;
pub use event::{Event, LogLevel, Message};
pub use target::{DetachReason, DeviceSel, Target};
