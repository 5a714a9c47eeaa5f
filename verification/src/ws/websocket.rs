//! The connection state machine: a two-state lifecycle around the message
//! assembler that auto-replies to pings, answers a close request with a
//! close frame, and refuses everything once closed.
//!
//! A `WebSocket` does not own its transport. The caller feeds in the bytes
//! received so far and writes back whatever reply bytes `next` or `dispose`
//! hand out; the machine tracks its own read position in that byte sequence.

use vstd::prelude::*;

use crate::ws::frame::Frame;
use crate::ws::frame::FrameModel;
use crate::ws::frame::OpCode;
use crate::ws::frame::spec_serialize_frame;
use crate::ws::message::DecodeMessageError;
use crate::ws::message::DecodeOutcome;
use crate::ws::message::Message;
use crate::ws::message::MessageModel;
use crate::ws::message::spec_next_message;

verus! {

/// The lifecycle of one connection. Transitions only ever go from `Open` to
/// `Closed`; `Closed` is absorbing.
#[derive(Clone, Copy, PartialEq, Eq, Structural, Debug)]
pub enum WebSocketState {
    Open,
    Closed,
}

/// Why `next` failed: `ClientError` for a protocol violation (the connection
/// stays open and the consumer decides whether to keep reading), or
/// `ConnectionClosed` once the connection is, or just became, closed.
#[derive(Clone, Copy, PartialEq, Eq, Structural, Debug)]
pub enum NextMessageError {
    ClientError,
    ConnectionClosed,
}

/// One server-side connection: its lifecycle state and its read position in
/// the received byte sequence.
#[derive(Clone, Debug)]
pub struct WebSocket {
    pub state: WebSocketState,
    pub pos: usize,
}

/// The pong frame echoing a ping's payload (empty when the ping carried none).
pub open spec fn spec_pong_frame(payload: Option<Seq<u8>>) -> FrameModel {
    FrameModel {
        fin: true,
        rsv1: false,
        rsv2: false,
        rsv3: false,
        op_code: OpCode::Pong,
        payload: match payload {
            Some(p) => p,
            None => Seq::empty(),
        },
    }
}

/// The close frame the server sends: a fin `Terminate` with empty payload.
pub open spec fn spec_close_frame_bytes() -> Seq<u8> {
    spec_serialize_frame(
        FrameModel {
            fin: true,
            rsv1: false,
            rsv2: false,
            rsv3: false,
            op_code: OpCode::Terminate,
            payload: Seq::empty(),
        },
    )
}

/// The serialized close frame.
pub fn close_frame_bytes() -> (out: Vec<u8>)
    ensures
        out@ == spec_close_frame_bytes(),
{
    let f = Frame {
        fin: true,
        rsv1: false,
        rsv2: false,
        rsv3: false,
        op_code: OpCode::Terminate,
        decoded: Vec::new(),
    };
    f.serialize()
}

/// A copy of `src`.
fn copy_bytes(src: &Vec<u8>) -> (r: Vec<u8>)
    ensures
        r@ == src@,
{
    let mut out: Vec<u8> = Vec::new();
    let mut i: usize = 0;
    while i < src.len()
        invariant
            i <= src@.len(),
            out@ == src@.take(i as int),
        decreases src@.len() - i,
    {
        out.push(src[i]);
        proof {
            assert(out@ =~= src@.take(i + 1));
        }
        i = i + 1;
    }
    proof {
        assert(out@ =~= src@);
    }
    out
}

impl WebSocket {
    /// A fresh connection: open, at the start of the received bytes.
    pub fn new() -> (ws: WebSocket)
        ensures
            ws.state == WebSocketState::Open,
            ws.pos == 0,
    {
        WebSocket { state: WebSocketState::Open, pos: 0 }
    }

    /// Pulls the next message out of the received bytes. The second result is
    /// what must be written back to the client before anything else happens:
    /// a pong echoing a ping's payload, the close-handshake reply after a
    /// close request, and nothing otherwise. A closed connection always fails
    /// with `ConnectionClosed`, unchanged and with nothing to write; a
    /// violation leaves the connection open.
    pub fn next(&mut self, input: &Vec<u8>) -> (r: (Result<Message, NextMessageError>, Vec<u8>))
        ensures
            old(self).state == WebSocketState::Closed ==> *final(self) == *old(self) && r.0
                == Err::<Message, _>(NextMessageError::ConnectionClosed) && r.1@
                == Seq::<u8>::empty(),
            old(self).state == WebSocketState::Open ==> match spec_next_message(
                input@,
                old(self).pos as int,
            ) {
                DecodeOutcome::Msg(m, end) => r.0 matches Ok(msg) && msg@ == m && final(self).state
                    == WebSocketState::Open && final(self).pos == end && (match m {
                    MessageModel::Ping(p) => r.1@ == spec_serialize_frame(spec_pong_frame(p)),
                    _ => r.1@ == Seq::<u8>::empty(),
                }),
                DecodeOutcome::Violation(end) => r.0 == Err::<Message, _>(
                    NextMessageError::ClientError,
                ) && final(self).state == WebSocketState::Open && final(self).pos == end && r.1@
                    == Seq::<u8>::empty(),
                DecodeOutcome::Close(end) => r.0 == Err::<Message, _>(
                    NextMessageError::ConnectionClosed,
                ) && final(self).state == WebSocketState::Closed && final(self).pos == end && r.1@
                    == spec_close_frame_bytes(),
            },
    {
        match self.state {
            WebSocketState::Closed => (Err(NextMessageError::ConnectionClosed), Vec::new()),
            WebSocketState::Open => {
                let mut p = self.pos;
                let res = Message::next(input, &mut p);
                self.pos = p;
                match res {
                    Ok(msg) => {
                        let reply: Vec<u8> = match &msg {
                            Message::Ping(payload) => {
                                let echoed: Vec<u8> = match payload {
                                    Some(v) => copy_bytes(v),
                                    None => Vec::new(),
                                };
                                let pong = Frame {
                                    fin: true,
                                    rsv1: false,
                                    rsv2: false,
                                    rsv3: false,
                                    op_code: OpCode::Pong,
                                    decoded: echoed,
                                };
                                pong.serialize()
                            },
                            _ => Vec::new(),
                        };
                        (Ok(msg), reply)
                    },
                    Err(DecodeMessageError::ClientProtocolViolationError) => (
                        Err(NextMessageError::ClientError),
                        Vec::new(),
                    ),
                    Err(DecodeMessageError::ClientSentCloseFrame) => {
                        self.state = WebSocketState::Closed;
                        (Err(NextMessageError::ConnectionClosed), close_frame_bytes())
                    },
                }
            },
        }
    }

    /// Releases a connection that is going out of scope. A connection still
    /// open hands back exactly one close frame to write; a closed one hands
    /// back nothing. The caller's cleanup hook must invoke this on every exit
    /// path, so that every connection leaving scope open emits a close frame
    /// exactly once.
    pub fn dispose(self) -> (out: Vec<u8>)
        ensures
            self.state == WebSocketState::Open ==> out@ == spec_close_frame_bytes(),
            self.state == WebSocketState::Closed ==> out@ == Seq::<u8>::empty(),
    {
        match self.state {
            WebSocketState::Open => close_frame_bytes(),
            WebSocketState::Closed => Vec::new(),
        }
    }
}

} // verus!
