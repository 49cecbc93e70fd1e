//! The logic of a terminal session daemon: wire framing, scrollback, output
//! fanout, the on-disk log, session naming, and the decisions of the daemon,
//! the attached client and the command line.

pub mod age;
pub mod attach;
pub mod buffers;
pub mod cli;
pub mod codec;
pub mod commands;
pub mod daemon;
pub mod fanout;
pub mod listing;
pub mod message;
pub mod paths;
pub mod ring_buffer;
pub mod session;
pub mod session_log;
pub mod spawn;
pub mod text;

pub use codec::{CodecError, MessageCodec, DEFAULT_MAX_FRAME_LEN};
pub use message::{Message, RedrawMethod};
