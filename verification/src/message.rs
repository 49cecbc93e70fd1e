//! The control messages that a client sends to the daemon.
//!
//! Only this direction is framed. Terminal output goes back to an attached
//! client as raw bytes, so mouse reporting, scroll sequences and colours pass
//! through untouched.

use crate::buffers::bytes_seq;
use bytes::Bytes;
use vstd::prelude::*;

verus! {

/// How the daemon should force a redraw after a client (re)attaches.
#[derive(Debug, Clone, Copy, PartialEq, Eq, Structural)]
pub enum RedrawMethod {
    /// The caller did not say; the daemon uses its own default.
    Unspecified,
    /// Do not force a redraw at all.
    NoRedraw,
    /// Send a `^L` to the program.
    CtrlL,
    /// Send `SIGWINCH` to the program.
    Winch,
}

impl RedrawMethod {
    /// The byte that stands for the method on the wire.
    pub open spec fn code(self) -> u8 {
        match self {
            RedrawMethod::Unspecified => 0,
            RedrawMethod::NoRedraw => 1,
            RedrawMethod::CtrlL => 2,
            RedrawMethod::Winch => 3,
        }
    }

    /// The byte that stands for the method on the wire.
    pub fn to_u8(self) -> (byte: u8)
        ensures
            byte == self.code(),
    {
        match self {
            RedrawMethod::Unspecified => 0,
            RedrawMethod::NoRedraw => 1,
            RedrawMethod::CtrlL => 2,
            RedrawMethod::Winch => 3,
        }
    }

    /// The method that `byte` stands for, if it stands for one.
    pub fn from_u8(byte: u8) -> (method: Option<Self>)
        ensures
            method == redraw_of_code(byte),
    {
        match byte {
            0 => Some(RedrawMethod::Unspecified),
            1 => Some(RedrawMethod::NoRedraw),
            2 => Some(RedrawMethod::CtrlL),
            3 => Some(RedrawMethod::Winch),
            _ => None,
        }
    }
}

/// The method whose code is `byte`: the four methods have the codes 0 to 3.
pub open spec fn redraw_of_code(byte: u8) -> Option<RedrawMethod> {
    if byte == 0 {
        Some(RedrawMethod::Unspecified)
    } else if byte == 1 {
        Some(RedrawMethod::NoRedraw)
    } else if byte == 2 {
        Some(RedrawMethod::CtrlL)
    } else if byte == 3 {
        Some(RedrawMethod::Winch)
    } else {
        None
    }
}

/// A method is recovered from its code, and a byte that stands for a method is
/// that method's code.
pub proof fn law_redraw_code_round_trip(method: RedrawMethod, byte: u8)
    ensures
        redraw_of_code(method.code()) == Some(method),
        redraw_of_code(byte) matches Some(m) ==> m.code() == byte,
        redraw_of_code(byte) is Some <==> byte <= 3,
{
}

/// The bytes of the methods, in both directions.
pub proof fn law_redraw_methods_have_these_bytes(
    method: RedrawMethod,
    byte: u8,
    read: Option<RedrawMethod>,
)
    requires
        call_ensures(RedrawMethod::to_u8, (method,), byte),
        call_ensures(RedrawMethod::from_u8, (byte,), read),
    ensures
        read == Some(method),
        byte == match method {
            RedrawMethod::Unspecified => 0u8,
            RedrawMethod::NoRedraw => 1u8,
            RedrawMethod::CtrlL => 2u8,
            RedrawMethod::Winch => 3u8,
        },
{
}

/// A control message from a client to the daemon.
#[derive(Debug, Clone, PartialEq, Eq)]
pub enum Message {
    /// Bytes for the program's input. A large paste is one frame.
    Push(Bytes),
    /// The client wants to attach. `skip_ring` is set when the client has
    /// already replayed the on-disk log, so that history is not shown twice.
    Attach { skip_ring: bool },
    /// The client detaches or suspends without closing the socket.
    Detach,
    /// The terminal's window size changed.
    Winch { rows: u16, cols: u16 },
    /// The client wants a redraw, and gives its current window size.
    Redraw { method: RedrawMethod, rows: u16, cols: u16 },
    /// Send a signal to the program.
    Kill { signal: u8 },
}

/// What a [`Message`] says, with the payload of a push as a sequence.
#[verifier::ext_equal]
pub enum MessageView {
    Push(Seq<u8>),
    Attach { skip_ring: bool },
    Detach,
    Winch { rows: u16, cols: u16 },
    Redraw { method: RedrawMethod, rows: u16, cols: u16 },
    Kill { signal: u8 },
}

impl View for Message {
    type V = MessageView;

    open spec fn view(&self) -> MessageView {
        match *self {
            Message::Push(payload) => MessageView::Push(bytes_seq(payload)),
            Message::Attach { skip_ring } => MessageView::Attach { skip_ring },
            Message::Detach => MessageView::Detach,
            Message::Winch { rows, cols } => MessageView::Winch { rows, cols },
            Message::Redraw { method, rows, cols } => MessageView::Redraw { method, rows, cols },
            Message::Kill { signal } => MessageView::Kill { signal },
        }
    }
}

} // verus!
