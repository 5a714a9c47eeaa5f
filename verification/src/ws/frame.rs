//! The frame codec: decoding one WebSocket frame from a byte sequence and
//! encoding one frame for transmission.
//!
//! Client-to-server frames are always masked; server-to-client frames never
//! are. `Frame::parse` therefore demands the mask bit and unmasks the payload,
//! while `Frame::serialize` writes the mask bit clear and no masking key.

use vstd::prelude::*;

verus! {

/// The opcode of one wire-level frame. Values outside this set are a
/// protocol violation and never construct a `Frame`.
#[derive(Clone, Copy, PartialEq, Eq, Structural, Debug)]
pub enum OpCode {
    Continue,
    Text,
    Binary,
    Terminate,
    Ping,
    Pong,
}

/// Raised for any malformed frame: short input, non-zero reserved bits,
/// unknown opcode, missing mask, or an oversized length. Callers treat every
/// sub-kind uniformly as a protocol violation, so the error carries no detail.
#[derive(Clone, Copy, PartialEq, Eq, Structural, Debug)]
pub struct ParseFrameError;

/// One wire-level WebSocket unit, with its payload already unmasked.
pub struct Frame {
    pub fin: bool,
    pub rsv1: bool,
    pub rsv2: bool,
    pub rsv3: bool,
    pub op_code: OpCode,
    pub decoded: Vec<u8>,
}

/// The mathematical model of a `Frame`: the same fields over a byte sequence.
pub struct FrameModel {
    pub fin: bool,
    pub rsv1: bool,
    pub rsv2: bool,
    pub rsv3: bool,
    pub op_code: OpCode,
    pub payload: Seq<u8>,
}

impl View for Frame {
    type V = FrameModel;

    open spec fn view(&self) -> FrameModel {
        FrameModel {
            fin: self.fin,
            rsv1: self.rsv1,
            rsv2: self.rsv2,
            rsv3: self.rsv3,
            op_code: self.op_code,
            payload: self.decoded@,
        }
    }
}

/// The wire value of each opcode.
pub open spec fn opcode_value(op: OpCode) -> u8 {
    match op {
        OpCode::Continue => 0,
        OpCode::Text => 1,
        OpCode::Binary => 2,
        OpCode::Terminate => 8,
        OpCode::Ping => 9,
        OpCode::Pong => 10,
    }
}

/// The opcode denoted by a wire value, or `None` for the reserved values.
pub open spec fn opcode_of(n: u8) -> Option<OpCode> {
    if n == 0 {
        Some(OpCode::Continue)
    } else if n == 1 {
        Some(OpCode::Text)
    } else if n == 2 {
        Some(OpCode::Binary)
    } else if n == 8 {
        Some(OpCode::Terminate)
    } else if n == 9 {
        Some(OpCode::Ping)
    } else if n == 10 {
        Some(OpCode::Pong)
    } else {
        None
    }
}

fn opcode_from(n: u8) -> (r: Option<OpCode>)
    ensures
        r == opcode_of(n),
{
    if n == 0 {
        Some(OpCode::Continue)
    } else if n == 1 {
        Some(OpCode::Text)
    } else if n == 2 {
        Some(OpCode::Binary)
    } else if n == 8 {
        Some(OpCode::Terminate)
    } else if n == 9 {
        Some(OpCode::Ping)
    } else if n == 10 {
        Some(OpCode::Pong)
    } else {
        None
    }
}

fn opcode_num(op: OpCode) -> (r: u8)
    ensures
        r == opcode_value(op),
{
    match op {
        OpCode::Continue => 0,
        OpCode::Text => 1,
        OpCode::Binary => 2,
        OpCode::Terminate => 8,
        OpCode::Ping => 9,
        OpCode::Pong => 10,
    }
}

/// The value of a byte sequence read as a big-endian integer.
pub open spec fn be_val(s: Seq<u8>) -> nat
    decreases s.len(),
{
    if s.len() == 0 {
        0
    } else {
        (be_val(s.drop_last()) * 256 + s.last()) as nat
    }
}

/// 256 to the power `k`.
pub open spec fn pow256(k: nat) -> nat
    decreases k,
{
    if k == 0 {
        1
    } else {
        256 * pow256((k - 1) as nat)
    }
}

pub proof fn lemma_be_val_bound(s: Seq<u8>)
    ensures
        be_val(s) < pow256(s.len()),
    decreases s.len(),
{
    if s.len() > 0 {
        lemma_be_val_bound(s.drop_last());
    }
}

pub proof fn lemma_pow256_pos(k: nat)
    ensures
        pow256(k) >= 1,
    decreases k,
{
    if k > 0 {
        lemma_pow256_pos((k - 1) as nat);
    }
}

pub proof fn lemma_pow256_le(a: nat, b: nat)
    requires
        a <= b,
    ensures
        pow256(a) <= pow256(b),
    decreases b,
{
    if a < b {
        lemma_pow256_le(a, (b - 1) as nat);
        lemma_pow256_pos((b - 1) as nat);
    }
}

/// The `k` big-endian bytes of `n` (the low `8 * k` bits of it).
pub open spec fn be_bytes(n: nat, k: nat) -> Seq<u8>
    decreases k,
{
    if k == 0 {
        Seq::empty()
    } else {
        be_bytes(n / 256, (k - 1) as nat) + seq![(n % 256) as u8]
    }
}

pub proof fn lemma_be_bytes_len(n: nat, k: nat)
    ensures
        be_bytes(n, k).len() == k,
    decreases k,
{
    if k > 0 {
        lemma_be_bytes_len(n / 256, (k - 1) as nat);
    }
}

/// Reading back the big-endian bytes of `n` yields `n` again.
pub proof fn lemma_be_val_of_be_bytes(n: nat, k: nat)
    requires
        n < pow256(k),
    ensures
        be_val(be_bytes(n, k)) == n,
    decreases k,
{
    if k == 0 {
    } else {
        let p = pow256((k - 1) as nat);
        assert(n / 256 < p) by {
            if n / 256 >= p {
                vstd::arithmetic::div_mod::lemma_fundamental_div_mod(n as int, 256);
                vstd::arithmetic::mul::lemma_mul_inequality(p as int, n as int / 256, 256);
            }
        }
        lemma_be_val_of_be_bytes(n / 256, (k - 1) as nat);
        lemma_be_bytes_len(n / 256, (k - 1) as nat);
        let s = be_bytes(n, k);
        assert(s.drop_last() =~= be_bytes(n / 256, (k - 1) as nat));
        assert(s.last() == (n % 256) as u8);
        vstd::arithmetic::div_mod::lemma_fundamental_div_mod(n as int, 256);
    }
}

/// The payload length and the position right after it, given the 7-bit length
/// field of a frame whose extended length (if any) starts at `pos`. Lengths
/// with the top bit of the 64-bit form set are rejected to bound memory use.
pub open spec fn spec_parse_len(input: Seq<u8>, pos: int, len7: int) -> Option<(int, int)> {
    if len7 <= 125 {
        Some((len7, pos))
    } else if len7 == 126 {
        if pos + 2 <= input.len() {
            Some((be_val(input.subrange(pos, pos + 2)) as int, pos + 2))
        } else {
            None
        }
    } else {
        if pos + 8 <= input.len() {
            let l = be_val(input.subrange(pos, pos + 8)) as int;
            if l < 0x8000000000000000 {
                Some((l, pos + 8))
            } else {
                None
            }
        } else {
            None
        }
    }
}

/// XOR of each payload byte with the masking key byte at its index mod 4.
pub open spec fn unmask(masked: Seq<u8>, key: Seq<u8>) -> Seq<u8> {
    Seq::new(masked.len(), |i: int| masked[i] ^ key[i % 4])
}

/// One client-to-server frame decoded from `input` at `pos`: the frame and
/// the position just past it, or `None` for anything malformed. The mask bit
/// must be set, the reserved bits clear, and the opcode known.
pub open spec fn spec_parse_frame(input: Seq<u8>, pos: int) -> Option<(FrameModel, int)> {
    if pos < 0 || pos + 2 > input.len() {
        None
    } else {
        let b0 = input[pos] as int;
        let b1 = input[pos + 1] as int;
        if b0 / 16 % 8 != 0 {
            None
        } else {
            match opcode_of((b0 % 16) as u8) {
                None => None,
                Some(op) => {
                    if b1 / 128 != 1 {
                        None
                    } else {
                        match spec_parse_len(input, pos + 2, b1 % 128) {
                            None => None,
                            Some((paylen, mask_pos)) => {
                                if mask_pos + 4 + paylen > input.len() {
                                    None
                                } else {
                                    Some(
                                        (
                                            FrameModel {
                                                fin: b0 / 128 == 1,
                                                rsv1: false,
                                                rsv2: false,
                                                rsv3: false,
                                                op_code: op,
                                                payload: unmask(
                                                    input.subrange(
                                                        mask_pos + 4,
                                                        mask_pos + 4 + paylen,
                                                    ),
                                                    input.subrange(mask_pos, mask_pos + 4),
                                                ),
                                            },
                                            mask_pos + 4 + paylen,
                                        ),
                                    )
                                }
                            },
                        }
                    }
                },
            }
        }
    }
}

/// A parsed frame occupies at least its two header bytes and four key bytes,
/// and ends within the input.
pub proof fn lemma_parse_frame_bounds(input: Seq<u8>, pos: int)
    ensures
        spec_parse_frame(input, pos) matches Some(r) ==> pos + 6 <= r.1 <= input.len(),
{
}

/// The big-endian value of the `k` bytes of `input` starting at `pos`.
fn read_be(input: &Vec<u8>, pos: usize, k: usize) -> (r: u64)
    requires
        pos + k <= input@.len(),
        k <= 8,
    ensures
        r == be_val(input@.subrange(pos as int, pos + k)),
{
    let n = input.len();
    let mut v: u64 = 0;
    let mut i: usize = 0;
    while i < k
        invariant
            i <= k <= 8,
            pos + k <= n == input@.len(),
            v == be_val(input@.subrange(pos as int, pos + i)),
        decreases k - i,
    {
        proof {
            lemma_be_val_bound(input@.subrange(pos as int, pos + i));
            lemma_pow256_le(i as nat, 7);
            assert(pow256(0) == 1);
            assert(pow256(1) == 256);
            assert(pow256(2) == 0x10000);
            assert(pow256(3) == 0x1000000);
            assert(pow256(4) == 0x100000000);
            assert(pow256(5) == 0x10000000000);
            assert(pow256(6) == 0x1000000000000);
            assert(pow256(7) == 0x100000000000000);
        }
        let b = input[pos + i];
        let next = v * 256 + b as u64;
        proof {
            let s = input@.subrange(pos as int, pos + i + 1);
            assert(s.drop_last() =~= input@.subrange(pos as int, pos + i));
            assert(s.last() == input@[pos + i]);
        }
        v = next;
        i = i + 1;
    }
    v
}

impl Frame {
    /// Decodes one frame from `input` at `pos`, returning it with the
    /// position just past it. Fails exactly where `spec_parse_frame` gives
    /// `None`, in which case `input` is unusable and the caller treats the
    /// connection as violating the protocol.
    pub fn parse(input: &Vec<u8>, pos: usize) -> (r: Result<(Frame, usize), ParseFrameError>)
        ensures
            (r is Ok) == (spec_parse_frame(input@, pos as int) is Some),
            r matches Ok(p) ==> spec_parse_frame(input@, pos as int) == Some((p.0@, p.1 as int)),
    {
        let n = input.len();
        if pos >= n || n - pos < 2 {
            return Err(ParseFrameError);
        }
        let b0 = input[pos];
        let b1 = input[pos + 1];
        if b0 / 16 % 8 != 0 {
            return Err(ParseFrameError);
        }
        let op = match opcode_from(b0 % 16) {
            Some(op) => op,
            None => {
                return Err(ParseFrameError);
            },
        };
        if b1 / 128 != 1 {
            return Err(ParseFrameError);
        }
        let len7 = b1 % 128;
        let paylen: u64;
        let mask_pos: usize;
        if len7 <= 125 {
            paylen = len7 as u64;
            mask_pos = pos + 2;
        } else if len7 == 126 {
            if n - (pos + 2) < 2 {
                return Err(ParseFrameError);
            }
            paylen = read_be(input, pos + 2, 2);
            mask_pos = pos + 4;
        } else {
            if n - (pos + 2) < 8 {
                return Err(ParseFrameError);
            }
            paylen = read_be(input, pos + 2, 8);
            if paylen >= 0x8000000000000000 {
                return Err(ParseFrameError);
            }
            mask_pos = pos + 10;
        }
        let avail = (n - mask_pos) as u64;
        if avail < 4 || paylen > avail - 4 {
            return Err(ParseFrameError);
        }
        let paylen_us = paylen as usize;
        let body = mask_pos + 4;
        let ghost masked = input@.subrange(body as int, body + paylen as int);
        let ghost key = input@.subrange(mask_pos as int, mask_pos + 4);
        let mut decoded: Vec<u8> = Vec::new();
        let mut i: usize = 0;
        while i < paylen_us
            invariant
                i <= paylen_us,
                body == mask_pos + 4,
                body + paylen_us <= n == input@.len(),
                masked == input@.subrange(body as int, body + paylen_us as int),
                key == input@.subrange(mask_pos as int, mask_pos + 4),
                decoded@ == unmask(masked, key).take(i as int),
            decreases paylen_us - i,
        {
            let b = input[body + i];
            let kb = input[mask_pos + (i % 4)];
            decoded.push(b ^ kb);
            proof {
                assert(decoded@ =~= unmask(masked, key).take(i + 1));
            }
            i = i + 1;
        }
        proof {
            assert(decoded@ =~= unmask(masked, key));
        }
        let frame = Frame {
            fin: b0 / 128 == 1,
            rsv1: false,
            rsv2: false,
            rsv3: false,
            op_code: op,
            decoded,
        };
        let end = body + paylen_us;
        Ok((frame, end))
    }

    /// Encodes this frame for transmission to the client: mask bit clear,
    /// no masking key, the payload verbatim.
    pub fn serialize(&self) -> (out: Vec<u8>)
        ensures
            out@ == spec_serialize_frame(self@),
    {
        let mut out: Vec<u8> = Vec::new();
        let fin_bit: u8 = if self.fin {
            128
        } else {
            0
        };
        let r1: u8 = if self.rsv1 {
            64
        } else {
            0
        };
        let r2: u8 = if self.rsv2 {
            32
        } else {
            0
        };
        let r3: u8 = if self.rsv3 {
            16
        } else {
            0
        };
        out.push(fin_bit + r1 + r2 + r3 + opcode_num(self.op_code));
        let len = self.decoded.len();
        if len <= 125 {
            out.push(len as u8);
        } else if len < 65536 {
            out.push(126);
            push_be(&mut out, len as u64, 2);
        } else {
            out.push(127);
            push_be(&mut out, len as u64, 8);
        }
        let ghost head = out@;
        let mut i: usize = 0;
        while i < self.decoded.len()
            invariant
                i <= self.decoded.len(),
                out@ == head + self.decoded@.take(i as int),
            decreases self.decoded.len() - i,
        {
            out.push(self.decoded[i]);
            proof {
                assert(out@ =~= head + self.decoded@.take(i + 1));
            }
            i = i + 1;
        }
        proof {
            assert(self.decoded@.take(self.decoded@.len() as int) =~= self.decoded@);
            assert(out@ =~= spec_serialize_frame(self@));
        }
        out
    }
}

/// Appends the `k` big-endian bytes of `n` to `out`.
fn push_be(out: &mut Vec<u8>, n: u64, k: usize)
    ensures
        final(out)@ == old(out)@ + be_bytes(n as nat, k as nat),
    decreases k,
{
    if k > 0 {
        push_be(out, n / 256, k - 1);
        out.push((n % 256) as u8);
        proof {
            assert(final(out)@ =~= old(out)@ + be_bytes(n as nat, k as nat));
        }
    } else {
        proof {
            assert(final(out)@ =~= old(out)@ + be_bytes(n as nat, 0));
        }
    }
}

/// The first byte of a serialized frame: fin, the reserved bits, the opcode.
pub open spec fn spec_byte0(f: FrameModel) -> u8 {
    ((if f.fin {
        128int
    } else {
        0int
    }) + (if f.rsv1 {
        64int
    } else {
        0int
    }) + (if f.rsv2 {
        32int
    } else {
        0int
    }) + (if f.rsv3 {
        16int
    } else {
        0int
    }) + opcode_value(f.op_code)) as u8
}

/// The length field of a server-to-client frame: one literal byte up to 125,
/// 126 with two big-endian bytes up to 65535, 127 with eight beyond that.
pub open spec fn spec_len_bytes(len: nat) -> Seq<u8> {
    if len <= 125 {
        seq![len as u8]
    } else if len < 65536 {
        seq![126u8] + be_bytes(len, 2)
    } else {
        seq![127u8] + be_bytes(len, 8)
    }
}

/// The serialized form of a server-to-client frame.
pub open spec fn spec_serialize_frame(f: FrameModel) -> Seq<u8> {
    seq![spec_byte0(f)] + spec_len_bytes(f.payload.len()) + f.payload
}

/// One server-to-client frame as a client would decode it from `input` at
/// `pos`: like `spec_parse_frame` but with the mask bit clear, no masking
/// key, and the payload taken verbatim.
pub open spec fn spec_client_parse_frame(input: Seq<u8>, pos: int) -> Option<(FrameModel, int)> {
    if pos < 0 || pos + 2 > input.len() {
        None
    } else {
        let b0 = input[pos] as int;
        let b1 = input[pos + 1] as int;
        if b0 / 16 % 8 != 0 {
            None
        } else {
            match opcode_of((b0 % 16) as u8) {
                None => None,
                Some(op) => {
                    if b1 / 128 != 0 {
                        None
                    } else {
                        match spec_parse_len(input, pos + 2, b1 % 128) {
                            None => None,
                            Some((paylen, body)) => {
                                if body + paylen > input.len() {
                                    None
                                } else {
                                    Some(
                                        (
                                            FrameModel {
                                                fin: b0 / 128 == 1,
                                                rsv1: false,
                                                rsv2: false,
                                                rsv3: false,
                                                op_code: op,
                                                payload: input.subrange(body, body + paylen),
                                            },
                                            body + paylen,
                                        ),
                                    )
                                }
                            },
                        }
                    }
                },
            }
        }
    }
}

/// Round trip through the codec: a frame encoded by the server-side encoder
/// and decoded by the client-side reference decoder yields the original fin,
/// opcode and payload, consuming exactly the encoded bytes.
pub proof fn lemma_serialize_client_parse_round_trip(f: FrameModel)
    requires
        !f.rsv1,
        !f.rsv2,
        !f.rsv3,
        f.payload.len() < 0x8000000000000000,
    ensures
        spec_client_parse_frame(spec_serialize_frame(f), 0) == Some(
            (f, spec_serialize_frame(f).len() as int),
        ),
{
    let s = spec_serialize_frame(f);
    let len = f.payload.len();
    let lb = spec_len_bytes(len);
    assert(s[0] == spec_byte0(f));
    let v = opcode_value(f.op_code);
    assert(v <= 10);
    let b0 = spec_byte0(f) as int;
    assert(b0 == (if f.fin {
        128int
    } else {
        0int
    }) + v);
    assert(b0 / 16 % 8 == 0);
    assert(b0 % 16 == v);
    assert(opcode_of((b0 % 16) as u8) == Some(f.op_code));
    assert(b0 / 128 == 1 <==> f.fin);
    if len <= 125 {
        assert(lb =~= seq![len as u8]);
        assert(s[1] == len as u8);
        assert(s.len() == 2 + len);
        assert(spec_parse_len(s, 2, s[1] as int % 128) == Some((len as int, 2int)));
        assert(s.subrange(2, 2 + len as int) =~= f.payload);
    } else if len < 65536 {
        lemma_be_bytes_len(len, 2);
        assert(s[1] == 126u8);
        assert(s.len() == 4 + len);
        assert(s.subrange(2, 4) =~= be_bytes(len, 2));
        assert(pow256(2) == 65536) by {
            assert(pow256(0) == 1);
            assert(pow256(1) == 256);
        }
        lemma_be_val_of_be_bytes(len, 2);
        assert(spec_parse_len(s, 2, 126) == Some((len as int, 4int)));
        assert(s.subrange(4, 4 + len as int) =~= f.payload);
    } else {
        lemma_be_bytes_len(len, 8);
        assert(s[1] == 127u8);
        assert(s.len() == 10 + len);
        assert(s.subrange(2, 10) =~= be_bytes(len, 8));
        assert(pow256(8) == 0x10000000000000000) by {
            assert(pow256(0) == 1);
            assert(pow256(1) == 256);
            assert(pow256(2) == 0x10000);
            assert(pow256(3) == 0x1000000);
            assert(pow256(4) == 0x100000000);
            assert(pow256(5) == 0x10000000000);
            assert(pow256(6) == 0x1000000000000);
            assert(pow256(7) == 0x100000000000000);
        }
        lemma_be_val_of_be_bytes(len, 8);
        assert(spec_parse_len(s, 2, 127) == Some((len as int, 10int)));
        assert(s.subrange(10, 10 + len as int) =~= f.payload);
    }
    let parsed = spec_client_parse_frame(s, 0);
    assert(parsed matches Some(r) && r.0 =~= f && r.1 == s.len());
}

} // verus!
