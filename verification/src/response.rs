//! Response headers.

use vstd::prelude::*;
use vstd::string::*;
use vstd::utf8::encode_utf8;

use crate::status::Status;
use crate::text::{decimal, push_decimal};

verus! {

/// The header of a response.
#[derive(Debug, PartialEq, Eq)]
pub struct ResponseHeader {
    pub status: Status,
    pub content_length: Option<usize>,
    pub content_type: String,
}

/// The line that announces the size of the body, where it is known.
pub open spec fn length_line(content_length: Option<usize>) -> Seq<char> {
    match content_length {
        Some(size) => "Content-Length: "@ + decimal(size as nat) + "\r\n"@,
        None => Seq::empty(),
    }
}

/// The text of a response header.
pub open spec fn header_text(
    status: Status,
    content_length: Option<usize>,
    content_type: Seq<char>,
) -> Seq<char> {
    "HTTP/1.1 "@ + decimal(status.code() as nat) + " "@ + status.reason() + "\r\n"@
        + "Server: Insomnia Server\r\n"@ + length_line(content_length) + "Content-Type: "@
        + content_type + "\r\n"@ + "\r\n"@
}

/// The bytes of a response header.
pub open spec fn header_bytes(
    status: Status,
    content_length: Option<usize>,
    content_type: Seq<char>,
) -> Seq<u8> {
    encode_utf8(header_text(status, content_length, content_type))
}

/// The bytes of a response header.
pub fn response_header(resp: &ResponseHeader) -> (r: Vec<u8>)
    ensures
        r@ == header_bytes(resp.status, resp.content_length, resp.content_type@),
{
    let mut out = "HTTP/1.1 ".to_owned();
    push_decimal(&mut out, resp.status.code() as usize);
    out.append(" ");
    out.append(resp.status.to_string().as_str());
    out.append("\r\n");
    out.append("Server: Insomnia Server\r\n");
    if let Some(size) = resp.content_length {
        out.append("Content-Length: ");
        push_decimal(&mut out, size);
        out.append("\r\n");
    }
    out.append("Content-Type: ");
    out.append(resp.content_type.as_str());
    out.append("\r\n");
    out.append("\r\n");
    assert(out@ == header_text(resp.status, resp.content_length, resp.content_type@));
    out.as_str().as_bytes_vec()
}

} // verus!
