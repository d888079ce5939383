//! What the pages and the first lines of responses are, status by status.

use vstd::prelude::*;
use vstd::utf8::encode_utf8;

use crate::context::{page_path, simple_page, site_of};
use crate::response::{header_bytes, header_text};
use crate::status::Status;
use crate::text::{decimal, law_decimal_read_back, unsigned};

verus! {

/// The digits of the codes.
proof fn lemma_code_digits()
    ensures
        decimal(100) == "100"@,
        decimal(200) == "200"@,
        decimal(400) == "400"@,
        decimal(401) == "401"@,
        decimal(403) == "403"@,
        decimal(404) == "404"@,
        decimal(405) == "405"@,
        decimal(413) == "413"@,
        decimal(414) == "414"@,
        decimal(500) == "500"@,
{
    reveal_strlit("100");
    reveal_strlit("200");
    reveal_strlit("400");
    reveal_strlit("401");
    reveal_strlit("403");
    reveal_strlit("404");
    reveal_strlit("405");
    reveal_strlit("413");
    reveal_strlit("414");
    reveal_strlit("500");
    reveal_with_fuel(decimal, 3);
    assert(decimal(100) =~= "100"@);
    assert(decimal(200) =~= "200"@);
    assert(decimal(400) =~= "400"@);
    assert(decimal(401) =~= "401"@);
    assert(decimal(403) =~= "403"@);
    assert(decimal(404) =~= "404"@);
    assert(decimal(405) =~= "405"@);
    assert(decimal(413) =~= "413"@);
    assert(decimal(414) =~= "414"@);
    assert(decimal(500) =~= "500"@);
}

/// The page of a status is looked for under the code of that very status: what stands before
/// `.html` is read as its code, and no two statuses share a path.
pub proof fn law_page_paths(status: Status, other: Status)
    ensures
        page_path(status) == match status {
            Status::Continue => "100.html"@,
            Status::OK => "200.html"@,
            Status::BadRequest => "400.html"@,
            Status::Unauthorized => "401.html"@,
            Status::Forbidden => "403.html"@,
            Status::NotFound => "404.html"@,
            Status::MethodNotAllowed => "405.html"@,
            Status::PayloadTooLarge => "413.html"@,
            Status::UriTooLong => "414.html"@,
            Status::InternalServerError => "500.html"@,
        },
        page_path(status).len() > 5,
        page_path(status).skip(page_path(status).len() - 5) == ".html"@,
        unsigned(page_path(status).take(page_path(status).len() - 5)) == Some(
            status.code() as usize,
        ),
        page_path(status) == page_path(other) ==> status == other,
{
    reveal_strlit(".html");
    reveal_strlit("100");
    reveal_strlit("200");
    reveal_strlit("400");
    reveal_strlit("401");
    reveal_strlit("403");
    reveal_strlit("404");
    reveal_strlit("405");
    reveal_strlit("413");
    reveal_strlit("414");
    reveal_strlit("500");
    reveal_strlit("100.html");
    reveal_strlit("200.html");
    reveal_strlit("400.html");
    reveal_strlit("401.html");
    reveal_strlit("403.html");
    reveal_strlit("404.html");
    reveal_strlit("405.html");
    reveal_strlit("413.html");
    reveal_strlit("414.html");
    reveal_strlit("500.html");
    lemma_code_digits();
    law_decimal_read_back(status.code() as usize);
    law_decimal_read_back(other.code() as usize);
    let path = page_path(status);
    let digits = decimal(status.code() as nat);
    assert(path.take(path.len() - 5) =~= digits);
    assert(path.skip(path.len() - 5) =~= ".html"@);
    assert(page_path(other).take(page_path(other).len() - 5) =~= decimal(other.code() as nat));
    match status {
        Status::Continue => assert(path =~= "100.html"@),
        Status::OK => assert(path =~= "200.html"@),
        Status::BadRequest => assert(path =~= "400.html"@),
        Status::Unauthorized => assert(path =~= "401.html"@),
        Status::Forbidden => assert(path =~= "403.html"@),
        Status::NotFound => assert(path =~= "404.html"@),
        Status::MethodNotAllowed => assert(path =~= "405.html"@),
        Status::PayloadTooLarge => assert(path =~= "413.html"@),
        Status::UriTooLong => assert(path =~= "414.html"@),
        Status::InternalServerError => assert(path =~= "500.html"@),
    }
}

/// The page for a status that has no other names the code and the phrase of that very status.
pub proof fn law_simple_pages(status: Status)
    ensures
        simple_page(status) == encode_utf8(
            match status {
                Status::Continue => "<h1>100 Continue<h1>"@,
                Status::OK => "<h1>200 OK<h1>"@,
                Status::BadRequest => "<h1>400 Bad Request<h1>"@,
                Status::Unauthorized => "<h1>401 Unauthorized<h1>"@,
                Status::Forbidden => "<h1>403 Forbidden<h1>"@,
                Status::NotFound => "<h1>404 Not Found<h1>"@,
                Status::MethodNotAllowed => "<h1>405 Method Not Allowed<h1>"@,
                Status::PayloadTooLarge => "<h1>413 Payload Too Large<h1>"@,
                Status::UriTooLong => "<h1>414 URI Too Long<h1>"@,
                Status::InternalServerError => "<h1>500 Internal Server Error<h1>"@,
            },
        ),
{
    reveal_strlit("<h1>");
    reveal_strlit(" ");
    reveal_strlit("100");
    reveal_strlit("200");
    reveal_strlit("400");
    reveal_strlit("401");
    reveal_strlit("403");
    reveal_strlit("404");
    reveal_strlit("405");
    reveal_strlit("413");
    reveal_strlit("414");
    reveal_strlit("500");
    reveal_strlit("Continue");
    reveal_strlit("OK");
    reveal_strlit("Bad Request");
    reveal_strlit("Unauthorized");
    reveal_strlit("Forbidden");
    reveal_strlit("Not Found");
    reveal_strlit("Method Not Allowed");
    reveal_strlit("Payload Too Large");
    reveal_strlit("URI Too Long");
    reveal_strlit("Internal Server Error");
    reveal_strlit("<h1>100 Continue<h1>");
    reveal_strlit("<h1>200 OK<h1>");
    reveal_strlit("<h1>400 Bad Request<h1>");
    reveal_strlit("<h1>401 Unauthorized<h1>");
    reveal_strlit("<h1>403 Forbidden<h1>");
    reveal_strlit("<h1>404 Not Found<h1>");
    reveal_strlit("<h1>405 Method Not Allowed<h1>");
    reveal_strlit("<h1>413 Payload Too Large<h1>");
    reveal_strlit("<h1>414 URI Too Long<h1>");
    reveal_strlit("<h1>500 Internal Server Error<h1>");
    lemma_code_digits();
    let text = "<h1>"@ + decimal(status.code() as nat) + " "@ + status.reason() + "<h1>"@;
    match status {
        Status::Continue => assert(text =~= "<h1>100 Continue<h1>"@),
        Status::OK => assert(text =~= "<h1>200 OK<h1>"@),
        Status::BadRequest => assert(text =~= "<h1>400 Bad Request<h1>"@),
        Status::Unauthorized => assert(text =~= "<h1>401 Unauthorized<h1>"@),
        Status::Forbidden => assert(text =~= "<h1>403 Forbidden<h1>"@),
        Status::NotFound => assert(text =~= "<h1>404 Not Found<h1>"@),
        Status::MethodNotAllowed => assert(text =~= "<h1>405 Method Not Allowed<h1>"@),
        Status::PayloadTooLarge => assert(text =~= "<h1>413 Payload Too Large<h1>"@),
        Status::UriTooLong => assert(text =~= "<h1>414 URI Too Long<h1>"@),
        Status::InternalServerError => assert(text =~= "<h1>500 Internal Server Error<h1>"@),
    }
}

/// The page of a status: the one that was given for its code; else, unchanged, the file with
/// its code and `.html` for a name; else the simple one.
pub proof fn law_page_of_status(
    given: Map<u32, Vec<u8>>,
    files: Map<Seq<char>, Seq<u8>>,
    serve_dir: Seq<char>,
    status: Status,
    code: u32,
    path: Seq<char>,
)
    requires
        code == match status {
            Status::Continue => 100u32,
            Status::OK => 200u32,
            Status::BadRequest => 400u32,
            Status::Unauthorized => 401u32,
            Status::Forbidden => 403u32,
            Status::NotFound => 404u32,
            Status::MethodNotAllowed => 405u32,
            Status::PayloadTooLarge => 413u32,
            Status::UriTooLong => 414u32,
            Status::InternalServerError => 500u32,
        },
        path == match status {
            Status::Continue => "100.html"@,
            Status::OK => "200.html"@,
            Status::BadRequest => "400.html"@,
            Status::Unauthorized => "401.html"@,
            Status::Forbidden => "403.html"@,
            Status::NotFound => "404.html"@,
            Status::MethodNotAllowed => "405.html"@,
            Status::PayloadTooLarge => "413.html"@,
            Status::UriTooLong => "414.html"@,
            Status::InternalServerError => "500.html"@,
        },
    ensures
        ({
            let page = site_of(given, files, serve_dir).pages[status];
            &&& given.contains_key(code) ==> page == given[code]@
            &&& !given.contains_key(code) && files.contains_key(path) ==> page == files[path]
            &&& !given.contains_key(code) && !files.contains_key(path) ==> page == simple_page(
                status,
            )
        }),
        site_of(given, files, serve_dir).serve_dir == serve_dir,
{
    law_page_paths(status, status);
}

/// A response header, byte for byte: the status line with the code and the phrase of that very
/// status, the name of the server, the size of the body in decimal notation if it is known,
/// the type of the body as it is, and an empty line.
pub proof fn law_header_bytes(
    status: Status,
    content_length: Option<usize>,
    content_type: Seq<char>,
)
    ensures
        header_bytes(status, content_length, content_type) == encode_utf8(
            (match status {
                Status::Continue => "HTTP/1.1 100 Continue\r\n"@,
                Status::OK => "HTTP/1.1 200 OK\r\n"@,
                Status::BadRequest => "HTTP/1.1 400 Bad Request\r\n"@,
                Status::Unauthorized => "HTTP/1.1 401 Unauthorized\r\n"@,
                Status::Forbidden => "HTTP/1.1 403 Forbidden\r\n"@,
                Status::NotFound => "HTTP/1.1 404 Not Found\r\n"@,
                Status::MethodNotAllowed => "HTTP/1.1 405 Method Not Allowed\r\n"@,
                Status::PayloadTooLarge => "HTTP/1.1 413 Payload Too Large\r\n"@,
                Status::UriTooLong => "HTTP/1.1 414 URI Too Long\r\n"@,
                Status::InternalServerError => "HTTP/1.1 500 Internal Server Error\r\n"@,
            }) + "Server: Insomnia Server\r\n"@ + (match content_length {
                Some(size) => "Content-Length: "@ + decimal(size as nat) + "\r\n"@,
                None => Seq::empty(),
            }) + ("Content-Type: "@ + content_type + "\r\n\r\n"@),
        ),
{
    reveal_strlit("HTTP/1.1 ");
    reveal_strlit(" ");
    reveal_strlit("\r\n");
    reveal_strlit("\r\n\r\n");
    reveal_strlit("100");
    reveal_strlit("200");
    reveal_strlit("400");
    reveal_strlit("401");
    reveal_strlit("403");
    reveal_strlit("404");
    reveal_strlit("405");
    reveal_strlit("413");
    reveal_strlit("414");
    reveal_strlit("500");
    reveal_strlit("Continue");
    reveal_strlit("OK");
    reveal_strlit("Bad Request");
    reveal_strlit("Unauthorized");
    reveal_strlit("Forbidden");
    reveal_strlit("Not Found");
    reveal_strlit("Method Not Allowed");
    reveal_strlit("Payload Too Large");
    reveal_strlit("URI Too Long");
    reveal_strlit("Internal Server Error");
    reveal_strlit("HTTP/1.1 100 Continue\r\n");
    reveal_strlit("HTTP/1.1 200 OK\r\n");
    reveal_strlit("HTTP/1.1 400 Bad Request\r\n");
    reveal_strlit("HTTP/1.1 401 Unauthorized\r\n");
    reveal_strlit("HTTP/1.1 403 Forbidden\r\n");
    reveal_strlit("HTTP/1.1 404 Not Found\r\n");
    reveal_strlit("HTTP/1.1 405 Method Not Allowed\r\n");
    reveal_strlit("HTTP/1.1 413 Payload Too Large\r\n");
    reveal_strlit("HTTP/1.1 414 URI Too Long\r\n");
    reveal_strlit("HTTP/1.1 500 Internal Server Error\r\n");
    lemma_code_digits();
    let first = "HTTP/1.1 "@ + decimal(status.code() as nat) + " "@ + status.reason() + "\r\n"@;
    match status {
        Status::Continue => assert(first =~= "HTTP/1.1 100 Continue\r\n"@),
        Status::OK => assert(first =~= "HTTP/1.1 200 OK\r\n"@),
        Status::BadRequest => assert(first =~= "HTTP/1.1 400 Bad Request\r\n"@),
        Status::Unauthorized => assert(first =~= "HTTP/1.1 401 Unauthorized\r\n"@),
        Status::Forbidden => assert(first =~= "HTTP/1.1 403 Forbidden\r\n"@),
        Status::NotFound => assert(first =~= "HTTP/1.1 404 Not Found\r\n"@),
        Status::MethodNotAllowed => assert(first =~= "HTTP/1.1 405 Method Not Allowed\r\n"@),
        Status::PayloadTooLarge => assert(first =~= "HTTP/1.1 413 Payload Too Large\r\n"@),
        Status::UriTooLong => assert(first =~= "HTTP/1.1 414 URI Too Long\r\n"@),
        Status::InternalServerError => assert(first =~= "HTTP/1.1 500 Internal Server Error\r\n"@),
    }
    let size = match content_length {
        Some(size) => "Content-Length: "@ + decimal(size as nat) + "\r\n"@,
        None => Seq::empty(),
    };
    assert(header_text(status, content_length, content_type) =~= first
        + "Server: Insomnia Server\r\n"@ + size + ("Content-Type: "@ + content_type
        + "\r\n\r\n"@));
}

} // verus!
