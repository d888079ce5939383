use std::collections::HashMap;

use httpd::context::{choose_status_page, status_page_path, HttpContext, HttpHandleOption};
use httpd::response::{response_header, ResponseHeader};
use httpd::status::Status;
use include_dir::{Dir, DirEntry, File};

fn options() -> HttpHandleOption {
    let mut status_page = HashMap::new();
    status_page.insert(Status::OK, "ok.html".to_string());
    HttpHandleOption { status_page, serve_directory: "./static/".to_string() }
}

fn nothing_given() -> HashMap<u32, Vec<u8>> {
    HashMap::new()
}

fn directory(entries: Vec<DirEntry<'static>>) -> Dir<'static> {
    Dir::new("", Box::leak(entries.into_boxed_slice()))
}

#[test]
fn codes_and_phrases() {
    let expected = [
        (100, "Continue"),
        (200, "OK"),
        (400, "Bad Request"),
        (401, "Unauthorized"),
        (403, "Forbidden"),
        (404, "Not Found"),
        (405, "Method Not Allowed"),
        (413, "Payload Too Large"),
        (414, "URI Too Long"),
        (500, "Internal Server Error"),
    ];
    let all = Status::iter();
    assert_eq!(all.len(), expected.len());
    for (status, (code, phrase)) in all.into_iter().zip(expected) {
        assert_eq!(status.code(), code);
        assert_eq!(status.to_string(), phrase);
        assert_eq!(Status::from_repr(code as usize), Some(status));
    }
}

#[test]
fn codes_without_a_status() {
    for code in [0, 99, 201, 402, 499, 501, usize::MAX] {
        assert_eq!(Status::from_repr(code), None);
    }
}

#[test]
fn simple_pages() {
    let context = HttpContext::new(options(), nothing_given(), &directory(Vec::new()));
    assert_eq!(context.status_page(Status::NotFound), b"<h1>404 Not Found<h1>");
    assert_eq!(
        context.status_page(Status::InternalServerError),
        b"<h1>500 Internal Server Error<h1>"
    );
    assert_eq!(context.serve_dir(), "./static/");
    for status in Status::iter() {
        let expected = format!("<h1>{} {}<h1>", status.code(), status.to_string());
        assert_eq!(context.status_page(status), expected.as_bytes());
    }
}

#[test]
fn embedded_pages() {
    let files = directory(vec![
        DirEntry::File(File::new("404.html", b"nothing here")),
        DirEntry::File(File::new("500", b"not a page")),
        DirEntry::File(File::new("200.html", b"\xff\x00")),
    ]);
    let context = HttpContext::new(options(), nothing_given(), &files);
    assert_eq!(context.status_page(Status::NotFound), b"nothing here");
    assert_eq!(context.status_page(Status::OK), b"\xff\x00");
    assert_eq!(
        context.status_page(Status::InternalServerError),
        b"<h1>500 Internal Server Error<h1>"
    );
}

#[test]
fn given_pages_come_first() {
    let files = directory(vec![
        DirEntry::File(File::new("404.html", b"embedded")),
        DirEntry::File(File::new("405.html", b"embedded too")),
    ]);
    let mut given = HashMap::new();
    given.insert(404, b"given".to_vec());
    given.insert(500, Vec::new());
    given.insert(999, b"for no status".to_vec());
    let context = HttpContext::new(options(), given, &files);
    assert_eq!(context.status_page(Status::NotFound), b"given");
    assert_eq!(context.status_page(Status::InternalServerError), b"");
    assert_eq!(context.status_page(Status::MethodNotAllowed), b"embedded too");
    assert_eq!(context.status_page(Status::OK), b"<h1>200 OK<h1>");
    assert_eq!(context.serve_dir(), "./static/");
}

#[test]
fn pages_in_nested_directories_are_not_taken() {
    let nested = directory(vec![DirEntry::File(File::new("old/404.html", b"old"))]);
    let files = directory(vec![DirEntry::Dir(nested)]);
    let context = HttpContext::new(options(), nothing_given(), &files);
    assert_eq!(context.status_page(Status::NotFound), b"<h1>404 Not Found<h1>");
}

#[test]
fn page_choice() {
    assert_eq!(status_page_path(Status::UriTooLong), "414.html");
    assert_eq!(choose_status_page(Status::OK, Some(vec![1, 2])), vec![1, 2]);
    assert_eq!(choose_status_page(Status::OK, None), b"<h1>200 OK<h1>");
}

#[test]
fn header_with_length() {
    let header = response_header(&ResponseHeader {
        status: Status::NotFound,
        content_length: Some(21),
        content_type: "text/html".to_string(),
    });
    assert_eq!(
        String::from_utf8(header).unwrap(),
        "HTTP/1.1 404 Not Found\r\nServer: Insomnia Server\r\nContent-Length: 21\r\n\
         Content-Type: text/html\r\n\r\n"
    );
}

#[test]
fn header_without_length() {
    let header = response_header(&ResponseHeader {
        status: Status::OK,
        content_length: None,
        content_type: "text/\u{e9}".to_string(),
    });
    assert_eq!(
        String::from_utf8(header).unwrap(),
        "HTTP/1.1 200 OK\r\nServer: Insomnia Server\r\nContent-Type: text/\u{e9}\r\n\r\n"
    );
}
