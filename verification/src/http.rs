//! The response that goes back over the wire: a status line, two headers
//! and a body of bytes.

use crate::text::{decimal, push_decimal};
use vstd::prelude::*;
use vstd::utf8::encode_utf8;

verus! {

/// A response before it is laid out as bytes.
#[derive(PartialEq, Eq, Debug)]
pub struct HTTPResponse {
    pub status_string: String,
    pub headers: String,
    pub body: Vec<u8>,
}

/// The outcome that a response reports.
pub enum Status {
    Okay,
    NotFound,
}

/// What kind of content a body holds.
pub enum ContentType {
    Image,
    HTML,
}

/// What a response stands for: its two texts and the bytes of its body.
pub ghost struct ResponseView {
    pub status_string: Seq<char>,
    pub headers: Seq<char>,
    pub body: Seq<u8>,
}

impl View for HTTPResponse {
    type V = ResponseView;

    open spec fn view(&self) -> ResponseView {
        ResponseView {
            status_string: self.status_string@,
            headers: self.headers@,
            body: self.body@,
        }
    }
}

/// The status line of a response.
pub open spec fn status_line(status: Status) -> Seq<char> {
    match status {
        Status::Okay => "HTTP/1.1 200 OK "@,
        Status::NotFound => "HTTP/1.1 404 Not Found "@,
    }
}

/// The media type named in the `Content-Type` header; empty where the
/// content type is not known.
pub open spec fn media_type(content_type: Option<ContentType>) -> Seq<char> {
    match content_type {
        Some(ContentType::Image) => "image/*"@,
        Some(ContentType::HTML) => "text/html"@,
        None => ""@,
    }
}

/// The two header lines of a response whose body has `length` bytes.
pub open spec fn header_lines(content_type: Option<ContentType>, length: nat) -> Seq<char> {
    "Content-Type: "@ + media_type(content_type) + "\r\nContent-Length: "@ + decimal(length)
}

/// The response with the given status, content type and body.
pub open spec fn response_of(
    status: Status,
    content_type: Option<ContentType>,
    body: Seq<u8>,
) -> ResponseView {
    ResponseView {
        status_string: status_line(status),
        headers: header_lines(content_type, body.len()),
        body,
    }
}

/// The bytes of a response on the wire: status line and headers as UTF-8,
/// an empty line, then the body.
pub open spec fn wire_bytes(response: ResponseView) -> Seq<u8> {
    encode_utf8(head_text(response.status_string, response.headers)) + response.body
}

/// The text that stands before the body on the wire.
pub open spec fn head_text(status_string: Seq<char>, headers: Seq<char>) -> Seq<char> {
    status_string + "\r\n"@ + headers + "\r\n\r\n"@
}

impl HTTPResponse {
    /// A response that reports success.
    pub fn okay(content_type: Option<ContentType>, body: Vec<u8>) -> (response: Self)
        ensures
            response@ == response_of(Status::Okay, content_type, body@),
    {
        Self::new(Status::Okay, content_type, body)
    }

    /// A response that reports that nothing was found.
    pub fn not_found(content_type: Option<ContentType>, body: Vec<u8>) -> (response: Self)
        ensures
            response@ == response_of(Status::NotFound, content_type, body@),
    {
        Self::new(Status::NotFound, content_type, body)
    }

    /// A response with the given status, content type and body. The
    /// `Content-Length` header says how many bytes the body has.
    pub fn new(status: Status, content_type: Option<ContentType>, body: Vec<u8>) -> (response: Self)
        ensures
            response@ == response_of(status, content_type, body@),
    {
        let status_string = String::from_str(
            match status {
                Status::Okay => "HTTP/1.1 200 OK ",
                Status::NotFound => "HTTP/1.1 404 Not Found ",
            },
        );
        let content_type_string = match content_type {
            Some(ContentType::Image) => "image/*",
            Some(ContentType::HTML) => "text/html",
            None => "",
        };
        let mut headers = String::from_str("Content-Type: ");
        headers.append(content_type_string);
        headers.append("\r\nContent-Length: ");
        push_decimal(&mut headers, body.len());
        HTTPResponse { status_string, headers, body }
    }

    /// The response as the bytes that go over the wire: status line and
    /// headers in UTF-8, an empty line, then the body.
    pub fn into_bytes(self) -> (bytes: Vec<u8>)
        ensures
            bytes@ == wire_bytes(self@),
    {
        let mut head = self.status_string;
        head.append("\r\n");
        head.append(self.headers.as_str());
        head.append("\r\n\r\n");
        let mut bytes = head.as_str().as_bytes_vec();
        let mut body = self.body;
        bytes.append(&mut body);
        bytes
    }
}

} // verus!
