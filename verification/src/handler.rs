//! Serving the requests of one connection.
//!
//! A handler decides, and its caller reads and writes: each call of `handle` takes what
//! happened and gives back what is to be done next.

use vstd::prelude::*;
use vstd::slice::slice_subrange;

use crate::context::{HttpContext, Site};
use crate::error::{eof_err_helper, read_error, HandleError, InternalError, IoError};
use crate::path::{is_inside, join, joined, stays_inside};
use crate::request::{
    parsed, request_of, unknown_method, ConnectionType, Method, Request, RequestHeader,
};
use crate::response::{header_bytes, response_header, ResponseHeader};
use crate::status::Status;
use crate::text::{chars_of, same, string_of};

verus! {

/// What is to become of the connection after a request was handled.
#[derive(Clone, Copy, Debug, PartialEq, Eq, Structural)]
pub enum HttpHandleStatus {
    Continue,
    EOF,
}

/// How the handling of a request ended.
pub type Outcome = Result<HttpHandleStatus, HandleError>;

/// One piece of sending a response.
#[derive(Debug, PartialEq, Eq)]
pub enum Step {
    /// Write these bytes.
    Write(Vec<u8>),
    /// Hand everything written so far to the client.
    Flush,
    /// Write what the client sends next, up to this many bytes.
    CopyBody(u64),
    /// Write the contents of the opened file.
    CopyFile,
}

/// What happened.
#[derive(Debug, PartialEq, Eq)]
pub enum Event {
    /// The next request is to be handled.
    Begin,
    /// A line was read; it is empty at the end of the input.
    Line(Result<String, IoError>),
    /// The response to the request that was read is to be sent.
    Respond,
    /// The file was opened, or could not be.
    Opened(bool),
    /// Whether the opened file is a regular one.
    Kind(Result<bool, IoError>),
    /// The size of the opened file.
    Length(Result<u64, IoError>),
    /// A step of the response was made.
    Sent(Result<(), IoError>),
}

/// What is to be done next, and told in the next event.
#[derive(Debug, PartialEq, Eq)]
pub enum Action {
    /// Read a line: `Event::Line`.
    ReadLine,
    /// Go on with the response: `Event::Respond`.
    Respond,
    /// Open the file with this path: `Event::Opened`.
    OpenFile(String),
    /// Find out whether the opened file is a regular one: `Event::Kind`.
    CheckKind,
    /// Find out the size of the opened file: `Event::Length`.
    CheckLength,
    /// Make a step of the response: `Event::Sent`.
    Send(Step),
    /// Nothing: the request is handled.
    Done(Outcome),
}

/// How far the current request has come.
enum Phase {
    Idle,
    Reading(Vec<char>),
    Received(Result<RequestHeader, HandleError>),
    UnknownMethod(ConnectionType),
    Opening(ConnectionType),
    Inspecting(ConnectionType),
    Sizing(ConnectionType),
    Sending(Vec<Step>, Outcome),
}

/// A step of a response.
#[verifier::ext_equal]
pub enum StepView {
    Write(Seq<u8>),
    Flush,
    CopyBody(u64),
    CopyFile,
}

/// What happened.
#[verifier::ext_equal]
pub enum EventView {
    Begin,
    Line(Result<Seq<char>, IoError>),
    Respond,
    Opened(bool),
    Kind(Result<bool, IoError>),
    Length(Result<u64, IoError>),
    Sent(Result<(), IoError>),
}

/// What is to be done next.
#[verifier::ext_equal]
pub enum ActionView {
    ReadLine,
    Respond,
    OpenFile(Seq<char>),
    CheckKind,
    CheckLength,
    Send(StepView),
    Done(Outcome),
}

/// How far a request has come.
#[verifier::ext_equal]
pub enum PhaseView {
    /// No request is being handled.
    Idle,
    /// This much of the header was read.
    Reading(Seq<char>),
    /// The header was read, or reading it failed.
    Received(Result<Request, HandleError>),
    /// The header was read, and asks by a method that there is none of.
    UnknownMethod(ConnectionType),
    /// The file to serve is being opened.
    Opening(ConnectionType),
    /// The kind of the opened file is being looked up.
    Inspecting(ConnectionType),
    /// The size of the opened file is being looked up.
    Sizing(ConnectionType),
    /// The response is being sent: these steps are still to be made, and the request then
    /// ends in this way.
    Sending(Seq<StepView>, Outcome),
}

impl View for Step {
    type V = StepView;

    open spec fn view(&self) -> StepView {
        match self {
            Step::Write(bytes) => StepView::Write(bytes@),
            Step::Flush => StepView::Flush,
            Step::CopyBody(limit) => StepView::CopyBody(*limit),
            Step::CopyFile => StepView::CopyFile,
        }
    }
}

impl View for Event {
    type V = EventView;

    open spec fn view(&self) -> EventView {
        match self {
            Event::Begin => EventView::Begin,
            Event::Line(Ok(line)) => EventView::Line(Ok(line@)),
            Event::Line(Err(e)) => EventView::Line(Err(*e)),
            Event::Respond => EventView::Respond,
            Event::Opened(opened) => EventView::Opened(*opened),
            Event::Kind(is_file) => EventView::Kind(*is_file),
            Event::Length(size) => EventView::Length(*size),
            Event::Sent(result) => EventView::Sent(*result),
        }
    }
}

impl View for Action {
    type V = ActionView;

    open spec fn view(&self) -> ActionView {
        match self {
            Action::ReadLine => ActionView::ReadLine,
            Action::Respond => ActionView::Respond,
            Action::OpenFile(path) => ActionView::OpenFile(path@),
            Action::CheckKind => ActionView::CheckKind,
            Action::CheckLength => ActionView::CheckLength,
            Action::Send(step) => ActionView::Send(step@),
            Action::Done(outcome) => ActionView::Done(*outcome),
        }
    }
}

/// The steps of a list.
spec fn steps_of(list: Seq<Step>) -> Seq<StepView> {
    Seq::new(list.len(), |i: int| list[i]@)
}

impl View for Phase {
    type V = PhaseView;

    closed spec fn view(&self) -> PhaseView {
        match self {
            Phase::Idle => PhaseView::Idle,
            Phase::Reading(text) => PhaseView::Reading(text@),
            Phase::Received(request) => PhaseView::Received(parsed(*request)),
            Phase::UnknownMethod(connection) => PhaseView::UnknownMethod(*connection),
            Phase::Opening(connection) => PhaseView::Opening(*connection),
            Phase::Inspecting(connection) => PhaseView::Inspecting(*connection),
            Phase::Sizing(connection) => PhaseView::Sizing(*connection),
            Phase::Sending(rest, outcome) => PhaseView::Sending(steps_of(rest@), *outcome),
        }
    }
}

/// Whether the text ends in an empty line, as a header does.
pub open spec fn ends_header(text: Seq<char>) -> bool {
    text.len() >= 4 && text.subrange(text.len() - 4, text.len() as int) == "\r\n\r\n"@
}

/// The phase after a whole header was read.
pub open spec fn after_header(text: Seq<char>) -> PhaseView {
    match unknown_method(text) {
        Some(connection) => PhaseView::UnknownMethod(connection),
        None => PhaseView::Received(request_of(text)),
    }
}

/// The phase after one more read of the header.
pub open spec fn after_read(text: Seq<char>, read: Result<Seq<char>, IoError>) -> PhaseView {
    match read {
        Err(e) => PhaseView::Received(Err(read_error(e))),
        Ok(line) => if line.len() == 0 {
            PhaseView::Received(Err(HandleError::Internal(InternalError::EOFReached)))
        } else if ends_header(text + line) {
            after_header(text + line)
        } else {
            PhaseView::Reading(text + line)
        },
    }
}

/// What the client asked to become of the connection.
pub open spec fn afterwards(connection: ConnectionType) -> HttpHandleStatus {
    match connection {
        ConnectionType::Close => HttpHandleStatus::EOF,
        ConnectionType::KeepAlive => HttpHandleStatus::Continue,
    }
}

/// The steps that send a header.
pub open spec fn header_steps(
    status: Status,
    content_length: Option<usize>,
    content_type: Seq<char>,
) -> Seq<StepView> {
    seq![
        StepView::Write(header_bytes(status, content_length, content_type)),
        StepView::Flush,
    ]
}

/// The steps that send the page for a status.
pub open spec fn page_steps(site: Site, status: Status, content_type: Seq<char>) -> Seq<
    StepView,
> {
    header_steps(status, Some(site.pages[status].len() as usize), content_type).push(
        StepView::Write(site.pages[status]),
    )
}

/// The phase and the action with which the given steps begin.
pub open spec fn sending(steps: Seq<StepView>, outcome: Outcome) -> (PhaseView, ActionView) {
    if steps.len() == 0 {
        (PhaseView::Idle, ActionView::Done(outcome))
    } else {
        (PhaseView::Sending(steps.skip(1), outcome), ActionView::Send(steps[0]))
    }
}

/// The answer that consists of the page for a status.
pub open spec fn page_answer(site: Site, status: Status, connection: ConnectionType) -> (
    PhaseView,
    ActionView,
) {
    sending(
        page_steps(site, status, "text/html"@).push(StepView::Flush),
        Ok(afterwards(connection)),
    )
}

/// The answer that repeats the body of the request.
pub open spec fn echo_answer(request: Request) -> (PhaseView, ActionView) {
    let header = header_steps(Status::OK, None, "text/plain"@);
    match request.content_length {
        Some(size) => sending(
            header.push(StepView::CopyBody(size as u64)).push(StepView::Flush),
            Ok(afterwards(request.connection)),
        ),
        None => sending(
            header,
            Err(HandleError::Internal(InternalError::RequiredHeaderField)),
        ),
    }
}

/// The answer that consists of the opened file.
pub open spec fn file_answer(
    content_length: Option<usize>,
    connection: ConnectionType,
) -> (PhaseView, ActionView) {
    sending(
        header_steps(Status::OK, content_length, "text/html"@).push(StepView::CopyFile).push(
            StepView::Flush,
        ),
        Ok(afterwards(connection)),
    )
}

/// The answer to a request that could not be read.
pub open spec fn error_answer(site: Site, e: HandleError) -> (PhaseView, ActionView) {
    sending(
        page_steps(site, Status::InternalServerError, "text/plain"@).push(StepView::Flush),
        Err(e),
    )
}

/// The path of the file that a URI stands for.
pub open spec fn target(site: Site, uri: Seq<char>) -> Seq<char> {
    joined(site.serve_dir, uri.skip(1))
}

/// How the answer to a request begins.
pub open spec fn answer(site: Site, received: Result<Request, HandleError>) -> (
    PhaseView,
    ActionView,
) {
    match received {
        Err(e) => if e == HandleError::Internal(InternalError::EOFReached) {
            (PhaseView::Idle, ActionView::Done(Err(e)))
        } else {
            error_answer(site, e)
        },
        Ok(request) => if request.uri == "/echo"@ && request.method is POST {
            echo_answer(request)
        } else if request.method is GET {
            if is_inside(target(site, request.uri), site.serve_dir) {
                (
                    PhaseView::Opening(request.connection),
                    ActionView::OpenFile(target(site, request.uri)),
                )
            } else {
                page_answer(site, Status::NotFound, request.connection)
            }
        } else {
            page_answer(site, Status::MethodNotAllowed, request.connection)
        },
    }
}

/// What is waited for in a phase.
/// The path that a URI stands for is what follows its first byte, so a file is served only
/// where that byte is a character.
pub open spec fn accepts(phase: PhaseView, event: EventView) -> bool {
    match (phase, event) {
        (PhaseView::Idle, EventView::Begin) => true,
        (PhaseView::Reading(_), EventView::Line(_)) => true,
        (PhaseView::Received(received), EventView::Respond) => match received {
            Ok(request) => request.method is GET ==> request.uri.len() > 0 && request.uri[0]
                <= '\x7f',
            Err(_) => true,
        },
        (PhaseView::UnknownMethod(_), EventView::Respond) => true,
        (PhaseView::Opening(_), EventView::Opened(_)) => true,
        (PhaseView::Inspecting(_), EventView::Kind(_)) => true,
        (PhaseView::Sizing(_), EventView::Length(_)) => true,
        (PhaseView::Sending(..), EventView::Sent(_)) => true,
        _ => false,
    }
}

/// The next phase and action, with every error as it came.
pub open spec fn plain_step(site: Site, phase: PhaseView, event: EventView) -> (
    PhaseView,
    ActionView,
)
    recommends
        accepts(phase, event),
{
    match (phase, event) {
        (PhaseView::Idle, EventView::Begin) => (
            PhaseView::Reading(Seq::empty()),
            ActionView::ReadLine,
        ),
        (PhaseView::Reading(text), EventView::Line(read)) => {
            let next = after_read(text, read);
            (
                next,
                if next is Reading {
                    ActionView::ReadLine
                } else {
                    ActionView::Respond
                },
            )
        },
        (PhaseView::Received(received), EventView::Respond) => answer(site, received),
        (PhaseView::UnknownMethod(connection), EventView::Respond) => page_answer(
            site,
            Status::MethodNotAllowed,
            connection,
        ),
        (PhaseView::Opening(connection), EventView::Opened(opened)) => if opened {
            (PhaseView::Inspecting(connection), ActionView::CheckKind)
        } else {
            page_answer(site, Status::NotFound, connection)
        },
        (PhaseView::Inspecting(connection), EventView::Kind(is_file)) => match is_file {
            Ok(true) => (PhaseView::Sizing(connection), ActionView::CheckLength),
            Ok(false) => page_answer(site, Status::NotFound, connection),
            Err(e) => (PhaseView::Idle, ActionView::Done(Err(HandleError::Io(e)))),
        },
        (PhaseView::Sizing(connection), EventView::Length(size)) => match size {
            Ok(size) => file_answer(Some(size as usize), connection),
            Err(_) => file_answer(None, connection),
        },
        (PhaseView::Sending(rest, outcome), EventView::Sent(result)) => match result {
            Ok(()) => sending(rest, outcome),
            Err(e) => (PhaseView::Idle, ActionView::Done(Err(HandleError::Io(e)))),
        },
        _ => arbitrary(),
    }
}

/// An error that only says that the connection is over is the end of the connection.
pub open spec fn concluded(outcome: Outcome) -> Outcome {
    match outcome {
        Err(e) if e.ends_connection() => Ok(HttpHandleStatus::EOF),
        _ => outcome,
    }
}

/// The next phase and action.
pub open spec fn step(site: Site, phase: PhaseView, event: EventView) -> (
    PhaseView,
    ActionView,
) {
    let (next, action) = plain_step(site, phase, event);
    (
        next,
        match action {
            ActionView::Done(outcome) => ActionView::Done(concluded(outcome)),
            _ => action,
        },
    )
}

/// Serves the requests of one connection.
/// It is used for all of them, one after the other.
pub struct HttpHandler<'a> {
    context: &'a HttpContext,
    phase: Phase,
}

impl<'a> View for HttpHandler<'a> {
    type V = PhaseView;

    closed spec fn view(&self) -> PhaseView {
        self.phase@
    }
}

impl HttpContext {
    /// A handler for a connection.
    pub fn get(&self) -> (r: HttpHandler<'_>)
        ensures
            r@ == PhaseView::Idle,
            r.site() == self@,
    {
        HttpHandler { context: self, phase: Phase::Idle }
    }
}

/// Whether the text ends in an empty line.
fn is_complete(text: &Vec<char>) -> (r: bool)
    ensures
        r == ends_header(text@),
{
    proof {
        reveal_strlit("\r\n\r\n");
    }
    let n: usize = text.len();
    if n < 4 {
        return false;
    }
    let ghost tail = text@.subrange(n - 4, n as int);
    let r = text[n - 4] == '\r' && text[n - 3] == '\n' && text[n - 2] == '\r' && text[n - 1]
        == '\n';
    proof {
        assert(tail[0] == text@[n - 4] && tail[1] == text@[n - 3] && tail[2] == text@[n - 2]
            && tail[3] == text@[n - 1]);
        if r {
            assert(tail =~= "\r\n\r\n"@);
        }
    }
    r
}

/// The steps that send a header.
fn send_header(resp: &ResponseHeader) -> (r: Vec<Step>)
    ensures
        steps_of(r@) == header_steps(resp.status, resp.content_length, resp.content_type@),
{
    let steps = vec![Step::Write(response_header(resp)), Step::Flush];
    assert(steps_of(steps@) =~= header_steps(
        resp.status,
        resp.content_length,
        resp.content_type@,
    ));
    steps
}

impl<'a> HttpHandler<'a> {
    /// What the handler answers from.
    pub closed spec fn site(&self) -> Site {
        self.context@
    }

    /// Whether `handle` can take this event now.
    pub fn accepts(&self, event: &Event) -> (r: bool)
        ensures
            r == accepts(self@, event@),
    {
        match (&self.phase, event) {
            (Phase::Idle, Event::Begin) => true,
            (Phase::Reading(_), Event::Line(_)) => true,
            (Phase::Received(received), Event::Respond) => match received {
                Ok(request) => {
                    if request.method == Method::GET {
                        let uri = chars_of(request.uri.as_str());
                        uri.len() > 0 && uri[0] <= '\x7f'
                    } else {
                        true
                    }
                },
                Err(_) => true,
            },
            (Phase::UnknownMethod(_), Event::Respond) => true,
            (Phase::Opening(_), Event::Opened(_)) => true,
            (Phase::Inspecting(_), Event::Kind(_)) => true,
            (Phase::Sizing(_), Event::Length(_)) => true,
            (Phase::Sending(..), Event::Sent(_)) => true,
            _ => false,
        }
    }

    /// Takes what happened, and gives back what is to be done next.
    /// Errors that only say that the connection is over end it.
    pub fn handle(&mut self, event: Event) -> (r: Action)
        requires
            accepts(old(self)@, event@),
        ensures
            final(self).site() == old(self).site(),
            (final(self)@, r@) == step(old(self).site(), old(self)@, event@),
    {
        match self.internal_handle(event) {
            Action::Done(Err(e)) => {
                if e.closes() {
                    Action::Done(Ok(HttpHandleStatus::EOF))
                } else {
                    Action::Done(Err(e))
                }
            },
            action => action,
        }
    }

    /// Takes what happened, and gives back what is to be done next.
    fn internal_handle(&mut self, event: Event) -> (r: Action)
        requires
            accepts(old(self)@, event@),
        ensures
            final(self).site() == old(self).site(),
            (final(self)@, r@) == plain_step(old(self).site(), old(self)@, event@),
    {
        let mut phase = Phase::Idle;
        std::mem::swap(&mut phase, &mut self.phase);
        match (phase, event) {
            (Phase::Reading(text), Event::Line(read)) => self.request_header(text, read),
            (Phase::Received(received), Event::Respond) => self.respond(received),
            (Phase::UnknownMethod(connection), Event::Respond) => {
                self.send_page(Status::MethodNotAllowed, connection)
            },
            (Phase::Opening(connection), Event::Opened(opened)) => {
                if opened {
                    self.phase = Phase::Inspecting(connection);
                    Action::CheckKind
                } else {
                    self.send_page(Status::NotFound, connection)
                }
            },
            (Phase::Inspecting(connection), Event::Kind(is_file)) => match is_file {
                Ok(true) => {
                    self.phase = Phase::Sizing(connection);
                    Action::CheckLength
                },
                Ok(false) => self.send_page(Status::NotFound, connection),
                Err(e) => Action::Done(Err(HandleError::Io(e))),
            },
            (Phase::Sizing(connection), Event::Length(size)) => match size {
                Ok(size) => self.file_body(Some(#[verifier::truncate] (size as usize)), connection),
                Err(_) => self.file_body(None, connection),
            },
            (Phase::Sending(rest, outcome), Event::Sent(result)) => match result {
                Ok(()) => self.send(rest, outcome),
                Err(e) => Action::Done(Err(HandleError::Io(e))),
            },
            // Nothing but `Event::Begin` is left.
            _ => {
                self.phase = Phase::Reading(Vec::new());
                Action::ReadLine
            },
        }
    }

    /// Takes one more read of the header.
    fn request_header(&mut self, text: Vec<char>, read: Result<String, IoError>) -> (r: Action)
        ensures
            final(self).site() == old(self).site(),
            (final(self)@, r@) == plain_step(
                old(self).site(),
                PhaseView::Reading(text@),
                Event::Line(read)@,
            ),
    {
        let mut text = text;
        match read {
            Ok(line) => {
                let mut chars = chars_of(line.as_str());
                if chars.len() == 0 {
                    self.phase = Phase::Received(
                        Err(HandleError::Internal(InternalError::EOFReached)),
                    );
                    return Action::Respond;
                }
                text.append(&mut chars);
                if is_complete(&text) {
                    let raw = string_of(text.as_slice());
                    self.phase = match RequestHeader::unknown_method(raw.as_str()) {
                        Some(connection) => Phase::UnknownMethod(connection),
                        None => Phase::Received(RequestHeader::parse(raw.as_str())),
                    };
                    Action::Respond
                } else {
                    self.phase = Phase::Reading(text);
                    Action::ReadLine
                }
            },
            Err(e) => {
                self.phase = Phase::Received(eof_err_helper(e));
                Action::Respond
            },
        }
    }

    /// Begins the answer to what was received.
    fn respond(&mut self, received: Result<RequestHeader, HandleError>) -> (r: Action)
        requires
            accepts(PhaseView::Received(parsed(received)), EventView::Respond),
            old(self)@ == PhaseView::Idle,
        ensures
            final(self).site() == old(self).site(),
            (final(self)@, r@) == answer(old(self).site(), parsed(received)),
    {
        let request = match received {
            Ok(request) => request,
            Err(e) => {
                if let HandleError::Internal(InternalError::EOFReached) = e {
                    return Action::Done(Err(e));
                }
                let mut steps = self.page(Status::InternalServerError, "text/plain");
                let ghost page = steps@;
                steps.push(Step::Flush);
                assert(steps_of(steps@) =~= steps_of(page).push(StepView::Flush));
                return self.send(steps, Err(e));
            },
        };
        if same(request.uri.as_str(), "/echo") && request.method == Method::POST {
            self.echo_body(&request)
        } else if request.method == Method::GET {
            let uri = chars_of(request.uri.as_str());
            let name = string_of(slice_subrange(uri.as_slice(), 1, uri.len()));
            let path = join(self.context.serve_dir(), name.as_str());
            assert(path@ == target(self.site(), request.uri@));
            if stays_inside(path.as_str(), self.context.serve_dir()) {
                self.phase = Phase::Opening(request.connection);
                Action::OpenFile(path)
            } else {
                self.send_page(Status::NotFound, request.connection)
            }
        } else {
            self.send_page(Status::MethodNotAllowed, request.connection)
        }
    }

    /// Begins to send the body of the request back.
    fn echo_body(&mut self, request: &RequestHeader) -> (r: Action)
        ensures
            final(self).site() == old(self).site(),
            (final(self)@, r@) == echo_answer(request@),
    {
        let mut steps = send_header(
            &ResponseHeader {
                status: Status::OK,
                content_length: None,
                content_type: "text/plain".to_owned(),
            },
        );
        let ghost header = steps@;
        match request.content_length {
            Some(size) => {
                steps.push(Step::CopyBody(size as u64));
                steps.push(Step::Flush);
                assert(steps_of(steps@) =~= steps_of(header).push(
                    StepView::CopyBody(size as u64),
                ).push(StepView::Flush));
                self.send(steps, Ok(HttpHandler::status_after(request.connection)))
            },
            None => self.send(
                steps,
                Err(HandleError::Internal(InternalError::RequiredHeaderField)),
            ),
        }
    }

    /// Begins to send the opened file.
    fn file_body(&mut self, content_length: Option<usize>, connection: ConnectionType) -> (r:
        Action)
        ensures
            final(self).site() == old(self).site(),
            (final(self)@, r@) == file_answer(content_length, connection),
    {
        let mut steps = send_header(
            &ResponseHeader {
                status: Status::OK,
                content_length,
                content_type: "text/html".to_owned(),
            },
        );
        let ghost header = steps@;
        steps.push(Step::CopyFile);
        steps.push(Step::Flush);
        assert(steps_of(steps@) =~= steps_of(header).push(StepView::CopyFile).push(
            StepView::Flush,
        ));
        self.send(steps, Ok(HttpHandler::status_after(connection)))
    }

    /// The steps that send the page for a status.
    fn page(&self, status: Status, content_type: &str) -> (r: Vec<Step>)
        ensures
            steps_of(r@) == page_steps(self.site(), status, content_type@),
    {
        let content = self.context.status_page(status);
        let mut steps = send_header(
            &ResponseHeader {
                status,
                content_length: Some(content.len()),
                content_type: content_type.to_owned(),
            },
        );
        let ghost header = steps@;
        let ghost bytes = content@;
        steps.push(Step::Write(content));
        assert(steps_of(steps@) =~= steps_of(header).push(StepView::Write(bytes)));
        steps
    }

    /// Begins to send the page for a status.
    fn send_page(&mut self, status: Status, connection: ConnectionType) -> (r: Action)
        ensures
            final(self).site() == old(self).site(),
            (final(self)@, r@) == page_answer(old(self).site(), status, connection),
    {
        let mut steps = self.page(status, "text/html");
        let ghost page = steps@;
        steps.push(Step::Flush);
        assert(steps_of(steps@) =~= steps_of(page).push(StepView::Flush));
        self.send(steps, Ok(HttpHandler::status_after(connection)))
    }

    /// What the client asked to become of the connection.
    fn status_after(connection: ConnectionType) -> (r: HttpHandleStatus)
        ensures
            r == afterwards(connection),
    {
        if connection == ConnectionType::Close {
            HttpHandleStatus::EOF
        } else {
            HttpHandleStatus::Continue
        }
    }

    /// Makes the first of the steps, or ends the request if there are none.
    fn send(&mut self, steps: Vec<Step>, outcome: Outcome) -> (r: Action)
        ensures
            final(self).site() == old(self).site(),
            (final(self)@, r@) == sending(steps_of(steps@), outcome),
    {
        let mut rest = steps;
        if rest.len() == 0 {
            self.phase = Phase::Idle;
            Action::Done(outcome)
        } else {
            let first = rest.remove(0);
            assert(steps_of(rest@) =~= steps_of(steps@).skip(1));
            self.phase = Phase::Sending(rest, outcome);
            Action::Send(first)
        }
    }
}

/// Whether the next request of the connection is to be handled.
pub fn serves_again(outcome: &Outcome) -> (r: bool)
    ensures
        r == (*outcome != Ok::<HttpHandleStatus, HandleError>(HttpHandleStatus::EOF)),
{
    match outcome {
        Ok(status) => *status != HttpHandleStatus::EOF,
        Err(_) => true,
    }
}

} // verus!
