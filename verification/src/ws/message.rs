//! The message assembler: reading decoded frames off a byte sequence and
//! reassembling them into logical messages, handling fragmentation and
//! classifying protocol violations against explicit close requests.

use vstd::prelude::*;

use crate::ws::frame::Frame;
use crate::ws::frame::FrameModel;
use crate::ws::frame::OpCode;
use crate::ws::frame::ParseFrameError;
use crate::ws::frame::lemma_parse_frame_bounds;
use crate::ws::frame::spec_parse_frame;

verus! {

use vstd::utf8::decode_utf8;
use vstd::utf8::valid_utf8;

/// One logical application-level message, the only unit a consumer sees.
/// A `Text` payload is always valid UTF-8; `Ping` and `Pong` carry their
/// payload only when it is non-empty.
#[derive(Clone, Debug, PartialEq, Eq)]
pub enum Message {
    Ping(Option<Vec<u8>>),
    Pong(Option<Vec<u8>>),
    Text(String),
    Binary(Vec<u8>),
}

/// The mathematical model of a `Message`.
pub enum MessageModel {
    Ping(Option<Seq<u8>>),
    Pong(Option<Seq<u8>>),
    Text(Seq<char>),
    Binary(Seq<u8>),
}

impl View for Message {
    type V = MessageModel;

    open spec fn view(&self) -> MessageModel {
        match self {
            Message::Ping(p) => MessageModel::Ping(
                match p {
                    Some(v) => Some(v@),
                    None => None,
                },
            ),
            Message::Pong(p) => MessageModel::Pong(
                match p {
                    Some(v) => Some(v@),
                    None => None,
                },
            ),
            Message::Text(s) => MessageModel::Text(s@),
            Message::Binary(v) => MessageModel::Binary(v@),
        }
    }
}

/// How decoding one message ends: `ClientProtocolViolationError` for any
/// framing rule violation or bad UTF-8, `ClientSentCloseFrame` for an
/// explicit close request (expected, but surfaced as a failure to
/// short-circuit the read loop).
#[derive(Clone, Copy, PartialEq, Eq, Structural, Debug)]
pub enum DecodeMessageError {
    ClientProtocolViolationError,
    ClientSentCloseFrame,
}

/// The outcome of decoding one message starting at some position: the message
/// and the position just past its frames, a protocol violation with the
/// position where reading stopped, or a close request with the position just
/// past the close frame.
pub enum DecodeOutcome {
    Msg(MessageModel, int),
    Violation(int),
    Close(int),
}

/// The message a completed payload finalizes to under an initiating opcode,
/// or `None` where that opcode cannot head a message (`Continue`) or the
/// payload of a `Text` message is not valid UTF-8.
pub open spec fn spec_finalize(op: OpCode, payload: Seq<u8>) -> Option<MessageModel> {
    match op {
        OpCode::Binary => Some(MessageModel::Binary(payload)),
        OpCode::Text => if valid_utf8(payload) {
            Some(MessageModel::Text(decode_utf8(payload)))
        } else {
            None
        },
        OpCode::Ping => Some(
            MessageModel::Ping(
                if payload.len() > 0 {
                    Some(payload)
                } else {
                    None
                },
            ),
        ),
        OpCode::Pong => Some(
            MessageModel::Pong(
                if payload.len() > 0 {
                    Some(payload)
                } else {
                    None
                },
            ),
        ),
        _ => None,
    }
}

pub open spec fn spec_payload_outcome(op: OpCode, payload: Seq<u8>, end: int) -> DecodeOutcome {
    match spec_finalize(op, payload) {
        Some(m) => DecodeOutcome::Msg(m, end),
        None => DecodeOutcome::Violation(end),
    }
}

/// The continuation loop of a fragmented message whose initiating opcode is
/// `op` and whose payload so far is `acc`: each further frame must be a
/// `Continue` (appended to the accumulator) or a `Terminate` (a close
/// request); the first `Continue` with fin set finalizes under `op`.
pub open spec fn spec_assemble(input: Seq<u8>, pos: int, op: OpCode, acc: Seq<u8>) -> DecodeOutcome
    decreases input.len() - pos,
{
    match spec_parse_frame(input, pos) {
        None => DecodeOutcome::Violation(pos),
        Some((f, end)) => {
            if f.op_code == OpCode::Terminate {
                DecodeOutcome::Close(end)
            } else if f.op_code != OpCode::Continue {
                DecodeOutcome::Violation(end)
            } else if f.fin {
                spec_payload_outcome(op, acc + f.payload, end)
            } else {
                spec_assemble(input, end, op, acc + f.payload)
            }
        },
    }
}

/// Decoding one message from `input` at `pos`: a `Terminate` first frame is a
/// close request; a fin first frame finalizes alone; otherwise its opcode and
/// payload seed the continuation loop.
pub open spec fn spec_next_message(input: Seq<u8>, pos: int) -> DecodeOutcome {
    match spec_parse_frame(input, pos) {
        None => DecodeOutcome::Violation(pos),
        Some((f, end)) => {
            if f.op_code == OpCode::Terminate {
                DecodeOutcome::Close(end)
            } else if f.fin {
                spec_payload_outcome(f.op_code, f.payload, end)
            } else {
                spec_assemble(input, end, f.op_code, f.payload)
            }
        },
    }
}

impl From<ParseFrameError> for DecodeMessageError {
    /// A malformed frame is uniformly a protocol violation one layer up.
    fn from(_e: ParseFrameError) -> (r: Self) {
        DecodeMessageError::ClientProtocolViolationError
    }
}

impl vstd::std_specs::convert::FromSpecImpl<ParseFrameError> for DecodeMessageError {
    open spec fn obeys_from_spec() -> bool {
        true
    }

    open spec fn from_spec(_e: ParseFrameError) -> Self {
        DecodeMessageError::ClientProtocolViolationError
    }
}

/// An unfragmented frame (fin set, not a close) decodes on its own: a Binary
/// or valid-UTF-8 Text frame yields exactly its decoded payload as the
/// corresponding message; a Ping or Pong yields its payload, or `None` when
/// it is empty; a Text frame whose payload is not valid UTF-8, or a bare
/// `Continue` when no message is being assembled, is a violation.
pub proof fn lemma_single_frame_message(input: Seq<u8>, pos: int, f: FrameModel, end: int)
    requires
        spec_parse_frame(input, pos) == Some((f, end)),
        f.fin,
        f.op_code != OpCode::Terminate,
    ensures
        spec_next_message(input, pos) == spec_payload_outcome(f.op_code, f.payload, end),
        f.op_code == OpCode::Binary ==> spec_next_message(input, pos) == DecodeOutcome::Msg(
            MessageModel::Binary(f.payload),
            end,
        ),
        f.op_code == OpCode::Text && valid_utf8(f.payload) ==> spec_next_message(input, pos)
            == DecodeOutcome::Msg(MessageModel::Text(decode_utf8(f.payload)), end),
        f.op_code == OpCode::Text && !valid_utf8(f.payload) ==> spec_next_message(input, pos)
            == DecodeOutcome::Violation(end),
        f.op_code == OpCode::Ping && f.payload.len() == 0 ==> spec_next_message(input, pos)
            == DecodeOutcome::Msg(MessageModel::Ping(None), end),
        f.op_code == OpCode::Ping && f.payload.len() > 0 ==> spec_next_message(input, pos)
            == DecodeOutcome::Msg(MessageModel::Ping(Some(f.payload)), end),
        f.op_code == OpCode::Continue ==> spec_next_message(input, pos)
            == DecodeOutcome::Violation(end),
{
}

/// A second initial frame (anything but `Continue` or `Terminate`) received
/// while a fragmented message is still being assembled is a violation.
pub proof fn lemma_new_message_during_fragmentation(
    input: Seq<u8>,
    pos: int,
    op: OpCode,
    acc: Seq<u8>,
    f: FrameModel,
    end: int,
)
    requires
        spec_parse_frame(input, pos) == Some((f, end)),
        f.op_code != OpCode::Continue,
        f.op_code != OpCode::Terminate,
    ensures
        spec_assemble(input, pos, op, acc) == DecodeOutcome::Violation(end),
{
}

/// The payload of each `Continue` frame from `pos` through the first one
/// with fin set, in arrival order.
pub open spec fn spec_fragment_payloads(input: Seq<u8>, pos: int) -> Seq<Seq<u8>>
    decreases input.len() - pos,
{
    match spec_parse_frame(input, pos) {
        None => Seq::empty(),
        Some((f, end)) => {
            if f.op_code != OpCode::Continue {
                Seq::empty()
            } else if f.fin {
                seq![f.payload]
            } else {
                seq![f.payload] + spec_fragment_payloads(input, end)
            }
        },
    }
}

/// The byte-for-byte concatenation of the given payloads, in order.
pub open spec fn concat_payloads(ps: Seq<Seq<u8>>) -> Seq<u8>
    decreases ps.len(),
{
    if ps.len() == 0 {
        Seq::empty()
    } else {
        ps[0] + concat_payloads(ps.drop_first())
    }
}

/// Whenever the continuation loop completes a message, that message
/// finalizes the accumulator followed by the concatenation of all
/// continuation-frame payloads in arrival order — however many there are.
pub proof fn lemma_assemble_concatenates(input: Seq<u8>, pos: int, op: OpCode, acc: Seq<u8>)
    ensures
        spec_assemble(input, pos, op, acc) matches DecodeOutcome::Msg(m, end) ==> spec_finalize(
            op,
            acc + concat_payloads(spec_fragment_payloads(input, pos)),
        ) == Some(m),
    decreases input.len() - pos,
{
    match spec_parse_frame(input, pos) {
        None => {},
        Some((f, end)) => {
            if f.op_code == OpCode::Terminate {
            } else if f.op_code != OpCode::Continue {
            } else if f.fin {
                assert(spec_fragment_payloads(input, pos) == seq![f.payload]);
                assert(concat_payloads(seq![f.payload].drop_first()) == Seq::<u8>::empty()) by {
                    assert(seq![f.payload].drop_first().len() == 0);
                }
                assert(acc + concat_payloads(spec_fragment_payloads(input, pos)) =~= acc
                    + f.payload);
            } else {
                lemma_assemble_concatenates(input, end, op, acc + f.payload);
                let rest = spec_fragment_payloads(input, end);
                let frags = seq![f.payload] + rest;
                assert(spec_fragment_payloads(input, pos) == frags);
                assert(frags.drop_first() =~= rest);
                assert(frags[0] == f.payload);
                assert((acc + f.payload) + concat_payloads(rest) =~= acc + (f.payload
                    + concat_payloads(rest)));
                assert(acc + concat_payloads(frags) =~= (acc + f.payload) + concat_payloads(rest));
            }
        },
    }
}

/// A fragmented message (an initial non-fin frame, then its continuations)
/// reassembles to exactly the concatenation of the initial frame's payload
/// and every continuation payload, in arrival order, finalized under the
/// initial frame's opcode.
pub proof fn lemma_fragmented_message_payload(input: Seq<u8>, pos: int, f: FrameModel, end: int)
    requires
        spec_parse_frame(input, pos) == Some((f, end)),
        !f.fin,
        f.op_code != OpCode::Terminate,
    ensures
        spec_next_message(input, pos) matches DecodeOutcome::Msg(m, mend) ==> spec_finalize(
            f.op_code,
            f.payload + concat_payloads(spec_fragment_payloads(input, end)),
        ) == Some(m),
{
    lemma_assemble_concatenates(input, end, f.op_code, f.payload);
}

/// Relies on `String::from_utf8`: it returns `Ok` exactly on valid UTF-8
/// input, and the returned string's characters are the decoding of the bytes.
#[verifier::external_body]
fn bytes_to_string(bytes: Vec<u8>) -> (r: Option<String>)
    ensures
        (r is Some) == valid_utf8(bytes@),
        r matches Some(s) ==> s@ == decode_utf8(bytes@),
{
    String::from_utf8(bytes).ok()
}

impl Message {
    /// Maps a completed payload to its message under the initiating opcode,
    /// failing exactly where `spec_finalize` gives `None`.
    fn finalize(op: OpCode, payload: Vec<u8>) -> (r: Result<Message, DecodeMessageError>)
        ensures
            (r is Ok) == (spec_finalize(op, payload@) is Some),
            r matches Ok(m) ==> spec_finalize(op, payload@) == Some(m@),
            r matches Err(e) ==> e == DecodeMessageError::ClientProtocolViolationError,
    {
        match op {
            OpCode::Binary => Ok(Message::Binary(payload)),
            OpCode::Text => match bytes_to_string(payload) {
                Some(s) => Ok(Message::Text(s)),
                None => Err(DecodeMessageError::ClientProtocolViolationError),
            },
            OpCode::Ping => Ok(
                Message::Ping(
                    if payload.len() > 0 {
                        Some(payload)
                    } else {
                        None
                    },
                ),
            ),
            OpCode::Pong => Ok(
                Message::Pong(
                    if payload.len() > 0 {
                        Some(payload)
                    } else {
                        None
                    },
                ),
            ),
            _ => Err(DecodeMessageError::ClientProtocolViolationError),
        }
    }

    /// Decodes the next message from `input`, advancing `pos` past the frames
    /// it consumed, exactly as `spec_next_message` describes. On a violation
    /// raised by the frame codec itself, `pos` stays at the malformed frame.
    pub fn next(input: &Vec<u8>, pos: &mut usize) -> (r: Result<Message, DecodeMessageError>)
        ensures
            match spec_next_message(input@, *old(pos) as int) {
                DecodeOutcome::Msg(m, end) => r matches Ok(msg) && msg@ == m && *final(pos)
                    == end,
                DecodeOutcome::Violation(end) => r == Err::<Message, _>(
                    DecodeMessageError::ClientProtocolViolationError,
                ) && *final(pos) == end,
                DecodeOutcome::Close(end) => r == Err::<Message, _>(
                    DecodeMessageError::ClientSentCloseFrame,
                ) && *final(pos) == end,
            },
    {
        let first = match Frame::parse(input, *pos) {
            Ok(p) => p,
            Err(_) => {
                return Err(DecodeMessageError::ClientProtocolViolationError);
            },
        };
        let (f, end) = first;
        proof {
            lemma_parse_frame_bounds(input@, *pos as int);
        }
        if f.op_code == OpCode::Terminate {
            *pos = end;
            return Err(DecodeMessageError::ClientSentCloseFrame);
        }
        if f.fin {
            *pos = end;
            return Self::finalize(f.op_code, f.decoded);
        }
        let op = f.op_code;
        let mut payload = f.decoded;
        let mut cur = end;
        loop
            invariant
                cur <= input@.len(),
                spec_assemble(input@, cur as int, op, payload@) == spec_next_message(
                    input@,
                    *old(pos) as int,
                ),
            decreases input@.len() - cur,
        {
            let next = match Frame::parse(input, cur) {
                Ok(p) => p,
                Err(_) => {
                    *pos = cur;
                    return Err(DecodeMessageError::ClientProtocolViolationError);
                },
            };
            let (g, gend) = next;
            proof {
                lemma_parse_frame_bounds(input@, cur as int);
            }
            if g.op_code == OpCode::Terminate {
                *pos = gend;
                return Err(DecodeMessageError::ClientSentCloseFrame);
            }
            if g.op_code != OpCode::Continue {
                *pos = gend;
                return Err(DecodeMessageError::ClientProtocolViolationError);
            }
            let fin = g.fin;
            let rest = g.decoded;
            append_bytes(&mut payload, &rest);
            if fin {
                *pos = gend;
                return Self::finalize(op, payload);
            }
            cur = gend;
        }
    }
}

/// Appends a copy of `src` to `dst`.
pub fn append_bytes(dst: &mut Vec<u8>, src: &Vec<u8>)
    ensures
        final(dst)@ == old(dst)@ + src@,
{
    let mut i: usize = 0;
    while i < src.len()
        invariant
            i <= src@.len(),
            dst@ == old(dst)@ + src@.take(i as int),
        decreases src@.len() - i,
    {
        dst.push(src[i]);
        proof {
            assert(dst@ =~= old(dst)@ + src@.take(i + 1));
        }
        i = i + 1;
    }
    proof {
        assert(dst@ =~= old(dst)@ + src@);
    }
}

} // verus!
