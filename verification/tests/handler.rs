use std::collections::HashMap;
use std::io::{BufRead, Read};

use httpd::context::{HttpContext, HttpHandleOption};
use httpd::error::{eof_err_helper, HandleError, InternalError, IoError, IoErrorKind};
use httpd::handler::{
    serves_again, Action, Event, HttpHandleStatus, HttpHandler, Outcome, Step,
};
use include_dir::Dir;

fn context() -> HttpContext {
    let options = HttpHandleOption {
        status_page: HashMap::new(),
        serve_directory: "./static/".to_string(),
    };
    HttpContext::new(options, HashMap::new(), &Dir::new("", &[]))
}

fn io_error(kind: IoErrorKind) -> IoError {
    IoError { kind, message: "broken".to_string() }
}

fn read(line: &str) -> Event {
    Event::Line(Ok(line.to_string()))
}

fn sent() -> Event {
    Event::Sent(Ok(()))
}

fn write(text: &str) -> Action {
    Action::Send(Step::Write(text.as_bytes().to_vec()))
}

fn flush() -> Action {
    Action::Send(Step::Flush)
}

fn go_on() -> Action {
    Action::Done(Ok(HttpHandleStatus::Continue))
}

fn close() -> Action {
    Action::Done(Ok(HttpHandleStatus::EOF))
}

fn feed(handler: &mut HttpHandler<'_>, events: Vec<Event>) -> Vec<Action> {
    let mut actions = Vec::new();
    for event in events {
        assert!(handler.accepts(&event));
        actions.push(handler.handle(event));
    }
    actions
}

/// Reads a header that consists of the given lines and an empty one.
fn receive(handler: &mut HttpHandler<'_>, lines: &[&str]) {
    assert_eq!(handler.handle(Event::Begin), Action::ReadLine);
    for line in lines {
        assert_eq!(handler.handle(read(&format!("{}\r\n", line))), Action::ReadLine);
    }
    assert_eq!(handler.handle(read("\r\n")), Action::Respond);
}

const NOT_FOUND: &str = "HTTP/1.1 404 Not Found\r\nServer: Insomnia Server\r\n\
                         Content-Length: 21\r\nContent-Type: text/html\r\n\r\n";

fn not_found_then(last: Action) -> Vec<Action> {
    vec![write(NOT_FOUND), flush(), write("<h1>404 Not Found<h1>"), flush(), last]
}

#[test]
fn echo_sends_the_body_back() {
    let context = context();
    let mut handler = context.get();
    receive(&mut handler, &["POST /echo HTTP/1.1", "Content-Length: 5"]);
    assert_eq!(
        feed(&mut handler, vec![Event::Respond, sent(), sent(), sent(), sent()]),
        vec![
            write("HTTP/1.1 200 OK\r\nServer: Insomnia Server\r\nContent-Type: text/plain\r\n\r\n"),
            flush(),
            Action::Send(Step::CopyBody(5)),
            flush(),
            go_on(),
        ]
    );
}

#[test]
fn echo_needs_a_length() {
    let context = context();
    let mut handler = context.get();
    receive(&mut handler, &["POST /echo HTTP/1.1", "Connection: close"]);
    assert_eq!(
        feed(&mut handler, vec![Event::Respond, sent(), sent()]),
        vec![
            write("HTTP/1.1 200 OK\r\nServer: Insomnia Server\r\nContent-Type: text/plain\r\n\r\n"),
            flush(),
            Action::Done(Err(HandleError::Internal(InternalError::RequiredHeaderField))),
        ]
    );
}

#[test]
fn file_is_served() {
    let context = context();
    let mut handler = context.get();
    receive(&mut handler, &["GET /index.html HTTP/1.1", "Connection: close"]);
    assert_eq!(
        feed(
            &mut handler,
            vec![
                Event::Respond,
                Event::Opened(true),
                Event::Kind(Ok(true)),
                Event::Length(Ok(1234)),
                sent(),
                sent(),
                sent(),
                sent(),
            ]
        ),
        vec![
            Action::OpenFile("./static/index.html".to_string()),
            Action::CheckKind,
            Action::CheckLength,
            write(
                "HTTP/1.1 200 OK\r\nServer: Insomnia Server\r\nContent-Length: 1234\r\n\
                 Content-Type: text/html\r\n\r\n"
            ),
            flush(),
            Action::Send(Step::CopyFile),
            flush(),
            close(),
        ]
    );
}

#[test]
fn file_of_unknown_size_is_served() {
    let context = context();
    let mut handler = context.get();
    receive(&mut handler, &["GET /a/b HTTP/1.1"]);
    let actions = feed(
        &mut handler,
        vec![
            Event::Respond,
            Event::Opened(true),
            Event::Kind(Ok(true)),
            Event::Length(Err(io_error(IoErrorKind::BrokenPipe))),
        ],
    );
    assert_eq!(actions[0], Action::OpenFile("./static/a/b".to_string()));
    assert_eq!(
        actions[3],
        write("HTTP/1.1 200 OK\r\nServer: Insomnia Server\r\nContent-Type: text/html\r\n\r\n")
    );
}

#[test]
fn get_of_echo_is_a_file() {
    let context = context();
    let mut handler = context.get();
    receive(&mut handler, &["GET /echo HTTP/1.1"]);
    assert_eq!(
        handler.handle(Event::Respond),
        Action::OpenFile("./static/echo".to_string())
    );
}

#[test]
fn missing_file_is_not_found() {
    let context = context();
    let mut handler = context.get();
    receive(&mut handler, &["GET /gone HTTP/1.1"]);
    assert_eq!(
        handler.handle(Event::Respond),
        Action::OpenFile("./static/gone".to_string())
    );
    assert_eq!(
        feed(&mut handler, vec![Event::Opened(false), sent(), sent(), sent(), sent()]),
        not_found_then(go_on())
    );
}

#[test]
fn directory_is_not_found() {
    let context = context();
    let mut handler = context.get();
    receive(&mut handler, &["GET / HTTP/1.1", "Connection: close"]);
    assert_eq!(
        feed(&mut handler, vec![Event::Respond, Event::Opened(true)]),
        vec![Action::OpenFile("./static/".to_string()), Action::CheckKind]
    );
    assert_eq!(
        feed(&mut handler, vec![Event::Kind(Ok(false)), sent(), sent(), sent(), sent()]),
        not_found_then(close())
    );
}

#[test]
fn absolute_path_is_not_found() {
    let context = context();
    let mut handler = context.get();
    receive(&mut handler, &["GET //etc/hosts HTTP/1.1"]);
    assert_eq!(
        feed(&mut handler, vec![Event::Respond, sent(), sent(), sent(), sent()]),
        not_found_then(go_on())
    );
}

#[test]
fn path_that_leads_out_is_not_found() {
    let context = context();
    let mut handler = context.get();
    for uri in ["/../secret.txt", "/a/../../x", "/..", "/./../x", "//static/../../x"] {
        receive(&mut handler, &[&format!("GET {} HTTP/1.1", uri)]);
        assert_eq!(
            feed(&mut handler, vec![Event::Respond, sent(), sent(), sent(), sent()]),
            not_found_then(go_on())
        );
    }
}

#[test]
fn path_that_comes_back_is_opened() {
    let context = context();
    for (uri, path) in [
        ("/a/../b", "./static/a/../b"),
        ("/a/..", "./static/a/.."),
        ("/../static/x", "./static/../static/x"),
    ] {
        let mut handler = context.get();
        receive(&mut handler, &[&format!("GET {} HTTP/1.1", uri)]);
        assert_eq!(handler.handle(Event::Respond), Action::OpenFile(path.to_string()));
    }
}

#[test]
fn kind_that_cannot_be_found_out() {
    let context = context();
    let mut handler = context.get();
    receive(&mut handler, &["GET /a HTTP/1.1"]);
    let events = vec![
        Event::Respond,
        Event::Opened(true),
        Event::Kind(Err(io_error(IoErrorKind::Other))),
    ];
    assert_eq!(
        feed(&mut handler, events)[2],
        Action::Done(Err(HandleError::Io(io_error(IoErrorKind::Other))))
    );
}

#[test]
fn other_post_is_not_allowed() {
    let context = context();
    let mut handler = context.get();
    receive(&mut handler, &["POST /other HTTP/1.1", "Content-Length: 5"]);
    assert_eq!(
        feed(&mut handler, vec![Event::Respond, sent(), sent(), sent(), sent()]),
        vec![
            write(
                "HTTP/1.1 405 Method Not Allowed\r\nServer: Insomnia Server\r\n\
                 Content-Length: 30\r\nContent-Type: text/html\r\n\r\n"
            ),
            flush(),
            write("<h1>405 Method Not Allowed<h1>"),
            flush(),
            go_on(),
        ]
    );
}

#[test]
fn unknown_method_is_not_allowed() {
    let context = context();
    let mut handler = context.get();
    for (lines, last) in [
        (&["PUT /x HTTP/1.1"][..], go_on()),
        (&["get /x HTTP/1.1", "Connection: keep-alive"][..], go_on()),
        (&["PUT /x HTTP/1.1", "Connection: close"][..], close()),
    ] {
        receive(&mut handler, lines);
        assert_eq!(
            feed(&mut handler, vec![Event::Respond, sent(), sent(), sent(), sent()]),
            vec![
                write(
                    "HTTP/1.1 405 Method Not Allowed\r\nServer: Insomnia Server\r\n\
                     Content-Length: 30\r\nContent-Type: text/html\r\n\r\n"
                ),
                flush(),
                write("<h1>405 Method Not Allowed<h1>"),
                flush(),
                last,
            ]
        );
    }
}

#[test]
fn malformed_header_without_a_method_is_a_server_error() {
    let context = context();
    let mut handler = context.get();
    for lines in [&["PUT"][..], &["PUT /x HTTP/1.1", "Host"][..]] {
        receive(&mut handler, lines);
        let actions = feed(&mut handler, vec![Event::Respond, sent(), sent(), sent(), sent()]);
        assert_eq!(
            actions[4],
            Action::Done(Err(HandleError::Internal(InternalError::FormatError)))
        );
    }
}

#[test]
fn unreadable_request_is_a_server_error() {
    let context = context();
    let mut handler = context.get();
    receive(&mut handler, &["GET / HTTP/1.1", "Host"]);
    assert_eq!(
        feed(&mut handler, vec![Event::Respond, sent(), sent(), sent(), sent()]),
        vec![
            write(
                "HTTP/1.1 500 Internal Server Error\r\nServer: Insomnia Server\r\n\
                 Content-Length: 33\r\nContent-Type: text/plain\r\n\r\n"
            ),
            flush(),
            write("<h1>500 Internal Server Error<h1>"),
            flush(),
            Action::Done(Err(HandleError::Internal(InternalError::FormatError))),
        ]
    );
}

#[test]
fn unknown_connection_is_a_server_error() {
    let context = context();
    let mut handler = context.get();
    receive(&mut handler, &["GET / HTTP/1.1", "Connection: upgrade"]);
    let actions = feed(&mut handler, vec![Event::Respond, sent(), sent(), sent(), sent()]);
    assert_eq!(actions[3], flush());
    assert_eq!(
        actions[4],
        Action::Done(Err(HandleError::Internal(InternalError::FormatError)))
    );
}

#[test]
fn failed_read_is_a_server_error() {
    let context = context();
    let mut handler = context.get();
    let failed = Event::Line(Err(io_error(IoErrorKind::Other)));
    assert_eq!(
        feed(&mut handler, vec![Event::Begin, read("GET / x\r\n"), failed]),
        vec![Action::ReadLine, Action::ReadLine, Action::Respond]
    );
    let actions = feed(&mut handler, vec![Event::Respond, sent(), sent(), sent(), sent()]);
    assert_eq!(actions[1], flush());
    assert_eq!(actions[3], flush());
    assert_eq!(actions[4], Action::Done(Err(HandleError::Io(io_error(IoErrorKind::Other)))));
}

#[test]
fn end_of_input_closes() {
    let context = context();
    let mut handler = context.get();
    assert_eq!(
        feed(&mut handler, vec![Event::Begin, read(""), Event::Respond]),
        vec![Action::ReadLine, Action::Respond, close()]
    );
    assert_eq!(
        feed(&mut handler, vec![Event::Begin, read("GET / x\r\n"), read(""), Event::Respond]),
        vec![Action::ReadLine, Action::ReadLine, Action::Respond, close()]
    );
}

#[test]
fn lost_connection_closes_while_reading() {
    let context = context();
    let mut handler = context.get();
    for kind in [IoErrorKind::BrokenPipe, IoErrorKind::ConnectionReset] {
        let lost = Event::Line(Err(io_error(kind)));
        assert_eq!(
            feed(&mut handler, vec![Event::Begin, lost, Event::Respond]),
            vec![Action::ReadLine, Action::Respond, close()]
        );
    }
}

#[test]
fn lost_connection_closes_while_sending() {
    let context = context();
    let mut handler = context.get();
    for kind in [IoErrorKind::BrokenPipe, IoErrorKind::ConnectionReset] {
        receive(&mut handler, &["POST /echo HTTP/1.1", "Content-Length: 5"]);
        let lost = Event::Sent(Err(io_error(kind)));
        let actions = feed(&mut handler, vec![Event::Respond, sent(), sent(), lost]);
        assert_eq!(actions[3], close());
    }
}

#[test]
fn other_failure_while_sending_is_passed_on() {
    let context = context();
    let mut handler = context.get();
    receive(&mut handler, &["POST /echo HTTP/1.1", "Content-Length: 5"]);
    let failed = Event::Sent(Err(io_error(IoErrorKind::Other)));
    assert_eq!(
        feed(&mut handler, vec![Event::Respond, failed])[1],
        Action::Done(Err(HandleError::Io(io_error(IoErrorKind::Other))))
    );
}

#[test]
fn requests_follow_each_other() {
    let context = context();
    let mut handler = context.get();
    for _ in 0..3 {
        receive(&mut handler, &["GET //x HTTP/1.1", "Connection: keep-alive"]);
        let actions = feed(&mut handler, vec![Event::Respond, sent(), sent(), sent(), sent()]);
        assert_eq!(actions, not_found_then(go_on()));
    }
}

#[test]
fn header_in_one_read() {
    let context = context();
    let mut handler = context.get();
    assert_eq!(
        feed(&mut handler, vec![Event::Begin, read("GET /a x\r\n\r\n"), Event::Respond]),
        vec![
            Action::ReadLine,
            Action::Respond,
            Action::OpenFile("./static/a".to_string()),
        ]
    );
}

#[test]
fn header_goes_on_without_an_empty_line() {
    let context = context();
    let mut handler = context.get();
    assert_eq!(
        feed(
            &mut handler,
            vec![Event::Begin, read("GET /a x\n"), read("\n"), read("x\r\n"), read("\n"), read("\r\n")]
        ),
        vec![
            Action::ReadLine,
            Action::ReadLine,
            Action::ReadLine,
            Action::ReadLine,
            Action::ReadLine,
            Action::ReadLine,
        ]
    );
    assert_eq!(handler.handle(read("\r\n")), Action::Respond);
}

/// Serves one request of a stream in memory, where no file can be opened.
fn serve(handler: &mut HttpHandler<'_>, stream: &mut &[u8]) -> (Vec<u8>, Outcome) {
    let mut out = Vec::new();
    let mut event = Event::Begin;
    loop {
        event = match handler.handle(event) {
            Action::ReadLine => {
                let mut line = String::new();
                stream.read_line(&mut line).unwrap();
                Event::Line(Ok(line))
            }
            Action::Respond => Event::Respond,
            Action::OpenFile(_) => Event::Opened(false),
            Action::Send(step) => {
                match step {
                    Step::Write(bytes) => out.extend(bytes),
                    Step::CopyBody(limit) => {
                        stream.take(limit).read_to_end(&mut out).unwrap();
                    }
                    _ => {}
                }
                sent()
            }
            Action::Done(outcome) => return (out, outcome),
            other => panic!("{:?}", other),
        };
    }
}

#[test]
fn echo_takes_its_body() {
    let context = context();
    let mut handler = context.get();
    let mut stream: &[u8] = b"POST /echo HTTP/1.1\r\nContent-Length: 5\r\n\r\nhel\norest";
    let (out, outcome) = serve(&mut handler, &mut stream);
    assert!(out.ends_with(b"\r\n\r\nhel\no"));
    assert_eq!(outcome, Ok(HttpHandleStatus::Continue));
    assert_eq!(stream, b"rest");
    let mut stream: &[u8] = b"POST /echo HTTP/1.1\r\nContent-Length: 50\r\n\r\nshort";
    let (out, _) = serve(&mut handler, &mut stream);
    assert!(out.ends_with(b"\r\n\r\nshort"));
    assert_eq!(stream, b"");
}

#[test]
fn other_requests_leave_what_follows() {
    let context = context();
    let mut handler = context.get();
    let rest = b"\r\nGET / x\r\n\r\n\xff\x00";
    for header in [
        "GET /a HTTP/1.1\r\nContent-Length: 5\r\n\r\n",
        "GET /../a HTTP/1.1\r\n\r\n",
        "POST /other HTTP/1.1\r\nContent-Length: 5\r\n\r\n",
        "POST /echo HTTP/1.1\r\n\r\n",
        "PUT /echo HTTP/1.1\r\nContent-Length: 5\r\n\r\n",
        "GET / HTTP/1.1\r\nHost\r\n\r\n",
        "GET /\u{e9} HTTP/1.1\r\nHost: a\nb\n\n\r\nAccept\r\n\r\n",
        "\r\n\r\n",
    ] {
        let bytes = [header.as_bytes(), rest].concat();
        let mut stream: &[u8] = &bytes;
        serve(&mut handler, &mut stream);
        assert_eq!(stream, rest.as_slice());
    }
}

#[test]
fn requests_of_one_stream() {
    let context = context();
    let mut handler = context.get();
    let mut stream: &[u8] = b"PUT / x\r\n\r\nPOST /echo x\r\nContent-Length: 2\r\n\r\nhi\
        GET /gone x\r\nConnection: close\r\n\r\n";
    let (out, outcome) = serve(&mut handler, &mut stream);
    assert!(out.starts_with(b"HTTP/1.1 405 "));
    assert_eq!(outcome, Ok(HttpHandleStatus::Continue));
    let (out, outcome) = serve(&mut handler, &mut stream);
    assert!(out.ends_with(b"\r\n\r\nhi"));
    assert_eq!(outcome, Ok(HttpHandleStatus::Continue));
    let (out, outcome) = serve(&mut handler, &mut stream);
    assert!(out.starts_with(b"HTTP/1.1 404 "));
    assert_eq!(outcome, Ok(HttpHandleStatus::EOF));
    assert_eq!(serve(&mut handler, &mut stream), (Vec::new(), Ok(HttpHandleStatus::EOF)));
}

#[test]
fn header_in_pieces() {
    let context = context();
    let text = "GET /a HTTP/1.1\r\nHost: b\r\n\r\n";
    for size in 1..text.len() + 1 {
        let mut handler = context.get();
        assert_eq!(handler.handle(Event::Begin), Action::ReadLine);
        let pieces: Vec<&str> =
            (0..text.len()).step_by(size).map(|i| &text[i..text.len().min(i + size)]).collect();
        for piece in &pieces[..pieces.len() - 1] {
            assert_eq!(handler.handle(read(piece)), Action::ReadLine);
        }
        assert_eq!(handler.handle(read(pieces[pieces.len() - 1])), Action::Respond);
        assert_eq!(
            handler.handle(Event::Respond),
            Action::OpenFile("./static/a".to_string())
        );
    }
}

#[test]
fn events_out_of_order_are_not_accepted() {
    let context = context();
    let mut handler = context.get();
    assert!(!handler.accepts(&read("x")));
    assert!(!handler.accepts(&sent()));
    assert!(handler.accepts(&Event::Begin));
    handler.handle(Event::Begin);
    assert!(!handler.accepts(&Event::Begin));
    assert!(!handler.accepts(&Event::Respond));
    assert!(handler.accepts(&read("x")));
}

#[test]
fn first_character_of_several_bytes() {
    let context = context();
    let mut handler = context.get();
    receive(&mut handler, &["GET \u{e9}a HTTP/1.1"]);
    assert!(!handler.accepts(&Event::Respond));
    let mut handler = context.get();
    receive(&mut handler, &["POST \u{e9}a HTTP/1.1"]);
    assert!(handler.accepts(&Event::Respond));
    let mut handler = context.get();
    receive(&mut handler, &["GET x\u{e9} HTTP/1.1"]);
    assert_eq!(
        handler.handle(Event::Respond),
        Action::OpenFile("./static/\u{e9}".to_string())
    );
}

#[test]
fn next_request_or_not() {
    assert!(serves_again(&Ok(HttpHandleStatus::Continue)));
    assert!(!serves_again(&Ok(HttpHandleStatus::EOF)));
    assert!(serves_again(&Err(HandleError::Internal(InternalError::FormatError))));
}

#[test]
fn failed_reads() {
    let lost: Result<(), HandleError> = eof_err_helper(io_error(IoErrorKind::ConnectionReset));
    assert_eq!(lost, Err(HandleError::Internal(InternalError::EOFReached)));
    let failed: Result<(), HandleError> = eof_err_helper(io_error(IoErrorKind::Other));
    assert_eq!(failed, Err(HandleError::Io(io_error(IoErrorKind::Other))));
    assert_eq!(HandleError::Io(io_error(IoErrorKind::Other)).to_string(), "broken");
}
