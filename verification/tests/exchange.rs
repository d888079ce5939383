use std::collections::HashMap;
use std::io::{BufRead, Read};

use httpd::context::{HttpContext, HttpHandleOption};
use httpd::error::{HandleError, InternalError};
use httpd::handler::{Action, Event, HttpHandleStatus, HttpHandler, Outcome, Step};
use include_dir::Dir;

/// What can be opened, by path: the contents of a regular file, or `None` for anything else.
type Files = HashMap<String, Option<Vec<u8>>>;

fn context_of(serve_directory: &str) -> HttpContext {
    let options = HttpHandleOption {
        status_page: HashMap::new(),
        serve_directory: serve_directory.to_string(),
    };
    HttpContext::new(options, HashMap::new(), &Dir::new("", &[]))
}

fn files() -> Files {
    let mut files = HashMap::new();
    files.insert("static/a".to_string(), Some(b"contents of a".to_vec()));
    files.insert("static/empty".to_string(), Some(Vec::new()));
    files.insert("static/dir".to_string(), None);
    files.insert("static/../static/a".to_string(), Some(b"contents of a".to_vec()));
    files.insert("/../x".to_string(), Some(b"at the root".to_vec()));
    files
}

/// Handles one request, and gives back what was sent and how it ended.
fn exchange(handler: &mut HttpHandler<'_>, files: &Files, stream: &mut &[u8]) -> (Vec<u8>, Outcome) {
    let mut out = Vec::new();
    let mut open: Option<Vec<u8>> = None;
    let mut event = Event::Begin;
    loop {
        assert!(handler.accepts(&event));
        event = match handler.handle(event) {
            Action::ReadLine => {
                let mut line = String::new();
                stream.read_line(&mut line).unwrap();
                Event::Line(Ok(line))
            }
            Action::Respond => Event::Respond,
            Action::OpenFile(path) => {
                open = files.get(&path).cloned().flatten();
                Event::Opened(files.contains_key(&path))
            }
            Action::CheckKind => Event::Kind(Ok(open.is_some())),
            Action::CheckLength => Event::Length(Ok(open.as_ref().unwrap().len() as u64)),
            Action::Send(step) => {
                match step {
                    Step::Write(bytes) => out.extend(bytes),
                    Step::CopyBody(limit) => {
                        stream.take(limit).read_to_end(&mut out).unwrap();
                    }
                    Step::CopyFile => out.extend(open.as_ref().unwrap()),
                    Step::Flush => {}
                }
                Event::Sent(Ok(()))
            }
            Action::Done(outcome) => return (out, outcome),
        };
    }
}

/// What a request alone is sent, and how it ends.
fn alone(context: &HttpContext, files: &Files, request: &[u8]) -> (Vec<u8>, Outcome) {
    let mut stream = request;
    let result = exchange(&mut context.get(), files, &mut stream);
    assert_eq!(stream, b"");
    result
}

const REQUESTS: [&[u8]; 10] = [
    b"GET /a HTTP/1.1\r\n\r\n",
    b"GET /empty HTTP/1.1\r\nHost: x\r\n\r\n",
    b"GET /dir HTTP/1.1\r\n\r\n",
    b"GET /gone HTTP/1.1\r\nContent-Length: 5\r\n\r\n",
    b"GET /../a HTTP/1.1\r\n\r\n",
    b"POST /echo HTTP/1.1\r\nContent-Length: 7\r\n\r\nGET /\r\n",
    b"POST /echo HTTP/1.1\r\nContent-Length: 0\r\n\r\n",
    b"POST /other HTTP/1.1\r\n\r\n",
    b"PUT /a HTTP/1.1\r\n\r\n",
    b"GET / HTTP/1.1\r\nHost\r\n\r\n",
];

#[test]
fn requests_do_not_mix() {
    let context = context_of("static");
    let files = files();
    for first in REQUESTS {
        for second in REQUESTS {
            let both = [first, second].concat();
            let mut stream: &[u8] = &both;
            let mut handler = context.get();
            let one = exchange(&mut handler, &files, &mut stream);
            assert_eq!(stream, second);
            let two = exchange(&mut handler, &files, &mut stream);
            assert_eq!(stream, b"");
            assert_eq!(one, alone(&context, &files, first));
            assert_eq!(two, alone(&context, &files, second));
        }
    }
}

#[test]
fn body_has_the_announced_length() {
    let context = context_of("static");
    for request in REQUESTS {
        let mut stream = request;
        let (out, _) = exchange(&mut context.get(), &files(), &mut stream);
        let end = out.windows(4).position(|w| w == b"\r\n\r\n").unwrap();
        let header = std::str::from_utf8(&out[..end]).unwrap();
        let announced = header.lines().find_map(|l| l.strip_prefix("Content-Length: "));
        assert_eq!(announced.is_none(), request.starts_with(b"POST /echo"));
        if let Some(size) = announced {
            assert_eq!(size.parse(), Ok(out.len() - end - 4));
        }
    }
}

#[test]
fn file_response() {
    let context = context_of("static");
    for uri in ["/a", "/../static/a"] {
        let request = format!("GET {} HTTP/1.1\r\nAccept: x\r\n\r\n", uri);
        let (out, outcome) = alone(&context, &files(), request.as_bytes());
        assert_eq!(
            String::from_utf8(out).unwrap(),
            "HTTP/1.1 200 OK\r\nServer: Insomnia Server\r\nContent-Length: 13\r\n\
             Content-Type: text/html\r\n\r\ncontents of a"
        );
        assert_eq!(outcome, Ok(HttpHandleStatus::Continue));
    }
}

#[test]
fn file_at_the_root() {
    let (out, _) = alone(&context_of("/"), &files(), b"GET /../x HTTP/1.1\r\n\r\n");
    assert!(out.starts_with(b"HTTP/1.1 200 OK\r\n"));
    assert!(out.ends_with(b"\r\n\r\nat the root"));
}

#[test]
fn files_are_not_kept() {
    let context = context_of("static");
    let request = b"GET /a HTTP/1.1\r\n\r\n";
    let mut files = files();
    let mut handler = context.get();
    let mut handle = |files: &Files| exchange(&mut handler, files, &mut request.as_slice()).0;
    assert!(handle(&files).ends_with(b"Content-Length: 13\r\nContent-Type: text/html\r\n\r\ncontents of a"));
    files.insert("static/a".to_string(), Some(b"new".to_vec()));
    assert!(handle(&files).ends_with(b"Content-Length: 3\r\nContent-Type: text/html\r\n\r\nnew"));
    files.remove("static/a");
    assert!(handle(&files).starts_with(b"HTTP/1.1 404 Not Found\r\n"));
    assert_eq!(handle(&files), alone(&context, &files, request).0);
}

#[test]
fn echo_without_length_sends_a_header() {
    let (out, outcome) = alone(&context_of("static"), &files(), b"POST /echo HTTP/1.1\r\n\r\n");
    assert_eq!(
        out,
        b"HTTP/1.1 200 OK\r\nServer: Insomnia Server\r\nContent-Type: text/plain\r\n\r\n"
    );
    assert_eq!(outcome, Err(HandleError::Internal(InternalError::RequiredHeaderField)));
}
