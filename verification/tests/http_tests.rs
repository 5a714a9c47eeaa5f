//! Tests of the HTTP response serializer and the built-in error responses.

use puck::encoder::Encoder;
use puck::response::Headers;
use puck::response::Response;
use puck::{err_400, err_404, write_response};

#[test]
fn headers_are_written_sorted_with_blank_line_and_body() {
    let mut headers = Headers::new();
    headers.insert("X-Foo".to_string(), "bar".to_string());
    headers.insert("Content-Type".to_string(), "text/html".to_string());
    let response = Response {
        headers,
        body: b"<p>hi</p>".to_vec(),
        status: 404,
        reason: "not found".to_string(),
    };
    let encoder = Encoder::new(response);
    let out = encoder.encode();
    let expected =
        b"HTTP/1.1 404 not found\r\nContent-Type: text/html\r\nX-Foo: bar\r\n\r\n<p>hi</p>";
    assert_eq!(out, expected.to_vec());
}

#[test]
fn insert_replaces_existing_header_value() {
    let mut headers = Headers::new();
    headers.insert("A".to_string(), "1".to_string());
    headers.insert("B".to_string(), "2".to_string());
    headers.insert("A".to_string(), "3".to_string());
    let response = Response {
        headers,
        body: Vec::new(),
        status: 200,
        reason: "OK".to_string(),
    };
    let out = Encoder::new(response).encode();
    assert_eq!(out, b"HTTP/1.1 200 OK\r\nA: 3\r\nB: 2\r\n\r\n".to_vec());
}

#[test]
fn insertion_order_does_not_affect_output_order() {
    let mut a = Headers::new();
    a.insert("Server".to_string(), "puck".to_string());
    a.insert("Connection".to_string(), "close".to_string());
    let mut b = Headers::new();
    b.insert("Connection".to_string(), "close".to_string());
    b.insert("Server".to_string(), "puck".to_string());
    let ra = Response { headers: a, body: Vec::new(), status: 200, reason: "OK".to_string() };
    let rb = Response { headers: b, body: Vec::new(), status: 200, reason: "OK".to_string() };
    assert_eq!(Encoder::new(ra).encode(), Encoder::new(rb).encode());
}

#[test]
fn err_404_serializes_expected_response() {
    let mut out = Vec::new();
    write_response(err_404(), &mut out);
    let expected = b"HTTP/1.1 404 not found\r\nContent-Type: text/html\r\n\r\n<h1>404: Not found</h1>";
    assert_eq!(out, expected.to_vec());
}

#[test]
fn err_400_serializes_expected_response() {
    let mut out = Vec::new();
    write_response(err_400(), &mut out);
    let expected = b"HTTP/1.1 400 bad request\r\nContent-Type: text/html\r\n\r\n<h1>400: bad request</h1>";
    assert_eq!(out, expected.to_vec());
}

#[test]
fn write_response_appends_to_existing_bytes() {
    let mut out = b"already-sent:".to_vec();
    let response = Response {
        headers: Headers::new(),
        body: b"x".to_vec(),
        status: 204,
        reason: "No Content".to_string(),
    };
    write_response(response, &mut out);
    assert_eq!(out, b"already-sent:HTTP/1.1 204 No Content\r\n\r\nx".to_vec());
}
