//! The HTTP/1.1 response encoder: status line, headers in their sorted
//! order, a blank line, then the body bytes verbatim.

use vstd::prelude::*;

use crate::response::Response;

verus! {

use vstd::string::StrSliceExecFns;
use vstd::string::StringSliceAdditionalSpecFns;
use vstd::utf8::encode_utf8;

/// The ASCII decimal digits of `n`, most significant first.
pub open spec fn dec_bytes(n: nat) -> Seq<u8>
    decreases n,
{
    if n < 10 {
        seq![(48 + n) as u8]
    } else {
        dec_bytes(n / 10) + seq![(48 + n % 10) as u8]
    }
}

/// One serialized header line: `name: value` and a line break.
pub open spec fn spec_header_line(h: (Seq<char>, Seq<char>)) -> Seq<u8> {
    encode_utf8(h.0) + ": ".spec_bytes() + encode_utf8(h.1) + "\r\n".spec_bytes()
}

/// All header lines, in the order the mapping holds them.
pub open spec fn spec_header_lines(hs: Seq<(Seq<char>, Seq<char>)>) -> Seq<u8>
    decreases hs.len(),
{
    if hs.len() == 0 {
        Seq::empty()
    } else {
        spec_header_lines(hs.drop_last()) + spec_header_line(hs.last())
    }
}

/// The serialized response: `HTTP/1.1 <status> <reason>`, each header line,
/// a blank line, then the body.
pub open spec fn spec_encode_response(
    status: u16,
    reason: Seq<char>,
    headers: Seq<(Seq<char>, Seq<char>)>,
    body: Seq<u8>,
) -> Seq<u8> {
    "HTTP/1.1 ".spec_bytes() + dec_bytes(status as nat) + " ".spec_bytes() + encode_utf8(reason)
        + "\r\n".spec_bytes() + spec_header_lines(headers) + "\r\n".spec_bytes() + body
}

/// Appends a copy of the slice to `out`.
fn push_slice(out: &mut Vec<u8>, s: &[u8])
    ensures
        final(out)@ == old(out)@ + s@,
{
    let mut i: usize = 0;
    while i < s.len()
        invariant
            i <= s@.len(),
            out@ == old(out)@ + s@.take(i as int),
        decreases s@.len() - i,
    {
        out.push(s[i]);
        proof {
            assert(out@ =~= old(out)@ + s@.take(i + 1));
        }
        i = i + 1;
    }
    proof {
        assert(out@ =~= old(out)@ + s@);
    }
}

/// Appends the UTF-8 bytes of `s` to `out`.
fn push_str_bytes(out: &mut Vec<u8>, s: &str)
    ensures
        final(out)@ == old(out)@ + s.spec_bytes(),
{
    push_slice(out, s.as_bytes());
}

/// Appends the decimal digits of `n` to `out`.
fn push_dec(out: &mut Vec<u8>, n: u16)
    ensures
        final(out)@ == old(out)@ + dec_bytes(n as nat),
    decreases n,
{
    if n < 10 {
        out.push(48 + n as u8);
        proof {
            assert(final(out)@ =~= old(out)@ + dec_bytes(n as nat));
        }
    } else {
        push_dec(out, n / 10);
        out.push(48 + (n % 10) as u8);
        proof {
            assert(final(out)@ =~= old(out)@ + dec_bytes(n as nat));
        }
    }
}

/// Serializes one `Response`.
#[derive(Debug)]
pub struct Encoder {
    pub response: Response,
}

impl Encoder {
    pub fn new(response: Response) -> (e: Encoder)
        ensures
            e.response == response,
    {
        Encoder { response }
    }

    /// The serialized form of the held response.
    pub fn encode(&self) -> (out: Vec<u8>)
        ensures
            out@ == spec_encode_response(
                self.response.status,
                self.response.reason@,
                self.response.headers@,
                self.response.body@,
            ),
    {
        let mut out: Vec<u8> = Vec::new();
        push_str_bytes(&mut out, "HTTP/1.1 ");
        push_dec(&mut out, self.response.status);
        push_str_bytes(&mut out, " ");
        push_str_bytes(&mut out, self.response.reason.as_str());
        push_str_bytes(&mut out, "\r\n");
        let ghost status_line = out@;
        let nh = self.response.headers.len();
        let mut i: usize = 0;
        proof {
            assert(self.response.headers@.take(0) =~= Seq::<(Seq<char>, Seq<char>)>::empty());
        }
        while i < nh
            invariant
                i <= nh == self.response.headers@.len(),
                out@ == status_line + spec_header_lines(self.response.headers@.take(i as int)),
            decreases nh - i,
        {
            let pair = self.response.headers.pair_at(i);
            push_str_bytes(&mut out, pair.0.as_str());
            push_str_bytes(&mut out, ": ");
            push_str_bytes(&mut out, pair.1.as_str());
            push_str_bytes(&mut out, "\r\n");
            proof {
                let hs = self.response.headers@;
                assert(hs.take(i + 1).drop_last() =~= hs.take(i as int));
                assert(hs.take(i + 1).last() == hs[i as int]);
                assert(out@ =~= status_line + spec_header_lines(hs.take(i + 1)));
            }
            i = i + 1;
        }
        proof {
            assert(self.response.headers@.take(self.response.headers@.len() as int)
                =~= self.response.headers@);
        }
        push_str_bytes(&mut out, "\r\n");
        push_slice(&mut out, self.response.body.as_slice());
        proof {
            assert(out@ =~= spec_encode_response(
                self.response.status,
                self.response.reason@,
                self.response.headers@,
                self.response.body@,
            ));
        }
        out
    }
}

} // verus!
