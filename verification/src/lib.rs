//! A server-side WebSocket protocol engine over a duplex byte stream, with a
//! minimal HTTP/1.1 response serializer for completing the upgrade handshake
//! and serving plain responses.
//!
//! The WebSocket layer decodes framed, masked, possibly fragmented records
//! into logical messages, detects protocol violations, and manages the
//! bidirectional close handshake. All of it is stated over byte sequences:
//! the caller reads bytes from its transport, hands them in, and writes back
//! whatever reply bytes come out.

use vstd::prelude::*;

pub mod encoder;
pub mod response;
pub mod ws;

verus! {

use vstd::string::StrSliceExecFns;
use vstd::string::StringExecFns;
use vstd::string::StringSliceAdditionalSpecFns;

use crate::encoder::Encoder;
use crate::encoder::spec_encode_response;
use crate::response::Headers;
use crate::response::Response;

/// The response served when no route matches: status 404, an HTML body.
pub fn err_404() -> (r: Response)
    ensures
        r.status == 404,
        r.reason@ == "not found"@,
        r.body@ == "<h1>404: Not found</h1>".spec_bytes(),
        r.headers@ == seq![("Content-Type"@, "text/html"@)],
{
    let mut headers = Headers::new();
    headers.insert(String::from_str("Content-Type"), String::from_str("text/html"));
    let r = Response {
        headers,
        body: "<h1>404: Not found</h1>".as_bytes_vec(),
        status: 404,
        reason: String::from_str("not found"),
    };
    proof {
        assert(r.headers@ =~= seq![("Content-Type"@, "text/html"@)]);
    }
    r
}

/// The response served for an unreadable request: status 400, an HTML body.
pub fn err_400() -> (r: Response)
    ensures
        r.status == 400,
        r.reason@ == "bad request"@,
        r.body@ == "<h1>400: bad request</h1>".spec_bytes(),
        r.headers@ == seq![("Content-Type"@, "text/html"@)],
{
    let mut headers = Headers::new();
    headers.insert(String::from_str("Content-Type"), String::from_str("text/html"));
    let r = Response {
        headers,
        body: "<h1>400: bad request</h1>".as_bytes_vec(),
        status: 400,
        reason: String::from_str("bad request"),
    };
    proof {
        assert(r.headers@ =~= seq![("Content-Type"@, "text/html"@)]);
    }
    r
}

/// Serializes `res` and appends the bytes to `out`, ready to be written to
/// the client's stream.
pub fn write_response(res: Response, out: &mut Vec<u8>)
    ensures
        final(out)@ == old(out)@ + spec_encode_response(
            res.status,
            res.reason@,
            res.headers@,
            res.body@,
        ),
{
    let encoder = Encoder::new(res);
    let bytes = encoder.encode();
    crate::ws::message::append_bytes(out, &bytes);
}

} // verus!
