//! What every request is answered with: which file is opened, and which bytes are sent.

use vstd::prelude::*;
use vstd::utf8::encode_utf8;

use crate::context::Site;
use crate::error::{HandleError, InternalError, IoError, IoErrorKind};
use crate::exchange_laws::{
    actions_of, handled, is_echo, law_response_sent, sent, sizes_fit, Entry, World,
};
use crate::handler::{
    accepts, afterwards, concluded, ends_header, header_steps, page_steps, step, target, ActionView,
    EventView, HttpHandleStatus, Outcome, PhaseView, StepView,
};
use crate::handler_laws::{all_sent, lemma_answer_sent, run, sends};
use crate::page_laws::law_header_bytes;
use crate::path::{
    components, depth, is_absolute, is_inside, law_never_above_is_inside, lemma_relative_components,
    names,
};
use crate::path_laws::{law_joined, law_joined_apart};
use crate::request::{request_of, unknown_method, ConnectionType, Request};
use crate::request_laws::{law_unknown_method_is_malformed, law_uri_is_a_word};
use crate::status::Status;
use crate::stream_laws::is_header;
use crate::text::{decimal, pieces};

verus! {

/// The file that a `GET` opens is the one that its URI names, to the last character: what
/// follows the first character of the URI, seen from the directory to serve.  Its components
/// are those of the directory and then those of the name.
pub proof fn law_opened_file(site: Site, request: Request, path: Seq<char>)
    requires
        request.method is GET,
        request.uri.len() > 0,
        accepts(PhaseView::Received(Ok(request)), EventView::Respond),
        step(site, PhaseView::Received(Ok(request)), EventView::Respond).1
            == ActionView::OpenFile(path),
    ensures
        ({
            let name = request.uri.skip(1);
            let dir = site.serve_dir;
            &&& path.len() >= name.len()
            &&& path.skip(path.len() - name.len()) == name
            &&& !(name.len() > 0 && name[0] == '/') ==> {
                &&& path == if dir.len() == 0 || dir[dir.len() - 1] == '/' {
                    dir + name
                } else {
                    dir + seq!['/'] + name
                }
                &&& dir.len() > 0 ==> components(path) == components(dir) + names(
                    pieces(name, "/"@),
                )
            }
            &&& name.len() > 0 && name[0] == '/' ==> path == name
        }),
        step(site, PhaseView::Received(Ok(request)), EventView::Respond).0 == PhaseView::Opening(
            request.connection,
        ),
        is_inside(path, site.serve_dir),
{
    let name = request.uri.skip(1);
    law_joined(site.serve_dir, name);
    assert(path.skip(path.len() - name.len()) =~= name);
    if !is_absolute(name) {
        lemma_relative_components(site.serve_dir, name);
    }
}

/// Two URIs that name different files never open the same path.
pub proof fn law_opened_files_apart(site: Site, one: Request, other: Request, path: Seq<char>)
    requires
        one.method is GET,
        other.method is GET,
        one.uri.len() > 0,
        other.uri.len() > 0,
        accepts(PhaseView::Received(Ok(one)), EventView::Respond),
        accepts(PhaseView::Received(Ok(other)), EventView::Respond),
        one.uri.len() > 1 ==> one.uri[1] != '/',
        other.uri.len() > 1 ==> other.uri[1] != '/',
        step(site, PhaseView::Received(Ok(one)), EventView::Respond).1 == ActionView::OpenFile(
            path,
        ),
        step(site, PhaseView::Received(Ok(other)), EventView::Respond).1 == ActionView::OpenFile(
            path,
        ),
    ensures
        one.uri.skip(1) == other.uri.skip(1),
{
    law_opened_file(site, one, path);
    law_opened_file(site, other, path);
    law_joined(site.serve_dir, one.uri.skip(1));
    law_joined(site.serve_dir, other.uri.skip(1));
    law_joined_apart(site.serve_dir, one.uri.skip(1), other.uri.skip(1));
}

proof fn lemma_no_ups(parts: Seq<Seq<char>>)
    requires
        forall|i: int| 0 <= i < parts.len() ==> #[trigger] parts[i] != ".."@,
    ensures
        depth(parts) >= 0,
    decreases parts.len(),
{
    if parts.len() > 0 {
        let before = parts.drop_last();
        assert forall|i: int| 0 <= i < before.len() implies #[trigger] before[i] != ".."@ by {
            assert(before[i] == parts[i]);
        }
        lemma_no_ups(before);
        assert(parts[parts.len() - 1] != ".."@);
    }
}

/// A URI without a second slash right after its first character and without steps up always
/// opens the file that it names.
pub proof fn law_plain_uri_is_opened(site: Site, request: Request)
    requires
        request.method is GET,
        request.uri.len() > 0,
        request.uri.len() > 1 ==> request.uri[1] != '/',
        forall|i: int|
            0 <= i < components(request.uri.skip(1)).len() ==> #[trigger] components(
                request.uri.skip(1),
            )[i] != ".."@,
    ensures
        ({
            let name = request.uri.skip(1);
            let dir = site.serve_dir;
            step(site, PhaseView::Received(Ok(request)), EventView::Respond) == (
                PhaseView::Opening(request.connection),
                ActionView::OpenFile(
                    if dir.len() == 0 || dir[dir.len() - 1] == '/' {
                        dir + name
                    } else {
                        dir + seq!['/'] + name
                    },
                ),
            )
        }),
{
    let name = request.uri.skip(1);
    let parts = names(pieces(name, "/"@));
    assert(!is_absolute(name));
    assert forall|k: int| 0 <= k <= parts.len() implies depth(#[trigger] parts.take(k)) >= 0 by {
        let some = parts.take(k);
        let n = components(name).len() - parts.len();
        assert forall|i: int| 0 <= i < some.len() implies #[trigger] some[i] != ".."@ by {
            assert(some[i] == components(name)[n + i]);
        }
        lemma_no_ups(some);
    }
    law_never_above_is_inside(site.serve_dir, name);
    law_joined(site.serve_dir, name);
}

/// Whatever leads out of the directory to serve is not opened.
pub proof fn law_outside_is_not_opened(site: Site, request: Request, path: Seq<char>)
    requires
        request.method is GET,
        request.uri.len() > 0,
        path == ({
            let name = request.uri.skip(1);
            let dir = site.serve_dir;
            if name.len() > 0 && name[0] == '/' {
                name
            } else if dir.len() == 0 || dir[dir.len() - 1] == '/' {
                dir + name
            } else {
                dir + seq!['/'] + name
            }
        }),
    ensures
        is_inside(path, site.serve_dir) <==> step(
            site,
            PhaseView::Received(Ok(request)),
            EventView::Respond,
        ) == (PhaseView::Opening(request.connection), ActionView::OpenFile(path)),
        !is_inside(path, site.serve_dir) ==> !(step(
            site,
            PhaseView::Received(Ok(request)),
            EventView::Respond,
        ).1 is OpenFile),
{
    law_joined(site.serve_dir, request.uri.skip(1));
}

/// What is not inside of the directory to serve is answered with 404 and the page for it.
pub proof fn law_outside_answer(site: Site, request: Request, path: Seq<char>)
    requires
        request.method is GET,
        request.uri.len() > 0,
        path == ({
            let name = request.uri.skip(1);
            let dir = site.serve_dir;
            if name.len() > 0 && name[0] == '/' {
                name
            } else if dir.len() == 0 || dir[dir.len() - 1] == '/' {
                dir + name
            } else {
                dir + seq!['/'] + name
            }
        }),
        !is_inside(path, site.serve_dir),
        site.pages[Status::NotFound].len() <= usize::MAX,
    ensures
        run(
            site,
            PhaseView::Received(Ok(request)),
            seq![
                EventView::Respond,
                EventView::Sent(Ok(())),
                EventView::Sent(Ok(())),
                EventView::Sent(Ok(())),
                EventView::Sent(Ok(())),
            ],
        ) == (
            PhaseView::Idle,
            seq![
                ActionView::Send(
                    StepView::Write(
                        encode_utf8(
                            "HTTP/1.1 404 Not Found\r\nServer: Insomnia Server\r\nContent-Length: "@
                                + decimal(site.pages[Status::NotFound].len())
                                + "\r\nContent-Type: text/html\r\n\r\n"@,
                        ),
                    ),
                ),
                ActionView::Send(StepView::Flush),
                ActionView::Send(StepView::Write(site.pages[Status::NotFound])),
                ActionView::Send(StepView::Flush),
                ActionView::Done(Ok(if request.connection is Close { HttpHandleStatus::EOF } else { HttpHandleStatus::Continue })),
            ],
        ),
{
    law_joined(site.serve_dir, request.uri.skip(1));
    let page = site.pages[Status::NotFound];
    let size = page.len() as usize;
    let steps = page_steps(site, Status::NotFound, "text/html"@).push(StepView::Flush);
    let outcome: Outcome = Ok(afterwards(request.connection));
    let head = "HTTP/1.1 404 Not Found\r\nServer: Insomnia Server\r\nContent-Length: "@ + decimal(size as nat)
        + "\r\nContent-Type: text/html\r\n\r\n"@;
    reveal_strlit("HTTP/1.1 404 Not Found\r\nServer: Insomnia Server\r\nContent-Length: ");
    reveal_strlit("\r\nContent-Type: text/html\r\n\r\n");
    reveal_strlit("HTTP/1.1 404 Not Found\r\n");
    reveal_strlit("Server: Insomnia Server\r\n");
    reveal_strlit("Content-Length: ");
    reveal_strlit("Content-Type: ");
    reveal_strlit("text/html");
    reveal_strlit("\r\n");
    reveal_strlit("\r\n\r\n");
    law_header_bytes(Status::NotFound, Some(size), "text/html"@);
    assert("HTTP/1.1 404 Not Found\r\n"@ + "Server: Insomnia Server\r\n"@ + (
    "Content-Length: "@ + decimal(size as nat) + "\r\n"@) + ("Content-Type: "@ + "text/html"@
        + "\r\n\r\n"@) =~= head);
    lemma_answer_sent(site, PhaseView::Received(Ok(request)), EventView::Respond, steps, outcome);
    assert(seq![EventView::Respond] + all_sent(4) =~= seq![
        EventView::Respond,
        EventView::Sent(Ok(())),
        EventView::Sent(Ok(())),
        EventView::Sent(Ok(())),
        EventView::Sent(Ok(())),
    ]);
    assert(sends(steps).push(ActionView::Done(concluded(outcome))) =~= seq![
        ActionView::Send(StepView::Write(encode_utf8(head))),
        ActionView::Send(StepView::Flush),
        ActionView::Send(StepView::Write(page)),
        ActionView::Send(StepView::Flush),
        ActionView::Done(Ok(if request.connection is Close { HttpHandleStatus::EOF } else { HttpHandleStatus::Continue })),
    ]);
}

/// A file that cannot be opened is answered with 404 and the page for it.
pub proof fn law_missing_answer(site: Site, connection: ConnectionType)
    requires
        site.pages[Status::NotFound].len() <= usize::MAX,
    ensures
        run(
            site,
            PhaseView::Opening(connection),
            seq![
                EventView::Opened(false),
                EventView::Sent(Ok(())),
                EventView::Sent(Ok(())),
                EventView::Sent(Ok(())),
                EventView::Sent(Ok(())),
            ],
        ) == (
            PhaseView::Idle,
            seq![
                ActionView::Send(
                    StepView::Write(
                        encode_utf8(
                            "HTTP/1.1 404 Not Found\r\nServer: Insomnia Server\r\nContent-Length: "@
                                + decimal(site.pages[Status::NotFound].len())
                                + "\r\nContent-Type: text/html\r\n\r\n"@,
                        ),
                    ),
                ),
                ActionView::Send(StepView::Flush),
                ActionView::Send(StepView::Write(site.pages[Status::NotFound])),
                ActionView::Send(StepView::Flush),
                ActionView::Done(Ok(if connection is Close { HttpHandleStatus::EOF } else { HttpHandleStatus::Continue })),
            ],
        ),
{
    let page = site.pages[Status::NotFound];
    let size = page.len() as usize;
    let steps = page_steps(site, Status::NotFound, "text/html"@).push(StepView::Flush);
    let outcome: Outcome = Ok(afterwards(connection));
    let head = "HTTP/1.1 404 Not Found\r\nServer: Insomnia Server\r\nContent-Length: "@ + decimal(size as nat)
        + "\r\nContent-Type: text/html\r\n\r\n"@;
    reveal_strlit("HTTP/1.1 404 Not Found\r\nServer: Insomnia Server\r\nContent-Length: ");
    reveal_strlit("\r\nContent-Type: text/html\r\n\r\n");
    reveal_strlit("HTTP/1.1 404 Not Found\r\n");
    reveal_strlit("Server: Insomnia Server\r\n");
    reveal_strlit("Content-Length: ");
    reveal_strlit("Content-Type: ");
    reveal_strlit("text/html");
    reveal_strlit("\r\n");
    reveal_strlit("\r\n\r\n");
    law_header_bytes(Status::NotFound, Some(size), "text/html"@);
    assert("HTTP/1.1 404 Not Found\r\n"@ + "Server: Insomnia Server\r\n"@ + (
    "Content-Length: "@ + decimal(size as nat) + "\r\n"@) + ("Content-Type: "@ + "text/html"@
        + "\r\n\r\n"@) =~= head);
    lemma_answer_sent(site, PhaseView::Opening(connection), EventView::Opened(false), steps, outcome);
    assert(seq![EventView::Opened(false)] + all_sent(4) =~= seq![
        EventView::Opened(false),
        EventView::Sent(Ok(())),
        EventView::Sent(Ok(())),
        EventView::Sent(Ok(())),
        EventView::Sent(Ok(())),
    ]);
    assert(sends(steps).push(ActionView::Done(concluded(outcome))) =~= seq![
        ActionView::Send(StepView::Write(encode_utf8(head))),
        ActionView::Send(StepView::Flush),
        ActionView::Send(StepView::Write(page)),
        ActionView::Send(StepView::Flush),
        ActionView::Done(Ok(if connection is Close { HttpHandleStatus::EOF } else { HttpHandleStatus::Continue })),
    ]);
}

/// What is no regular file is answered with 404 and the page for it.
pub proof fn law_no_file_answer(site: Site, connection: ConnectionType)
    requires
        site.pages[Status::NotFound].len() <= usize::MAX,
    ensures
        run(
            site,
            PhaseView::Inspecting(connection),
            seq![
                EventView::Kind(Ok(false)),
                EventView::Sent(Ok(())),
                EventView::Sent(Ok(())),
                EventView::Sent(Ok(())),
                EventView::Sent(Ok(())),
            ],
        ) == (
            PhaseView::Idle,
            seq![
                ActionView::Send(
                    StepView::Write(
                        encode_utf8(
                            "HTTP/1.1 404 Not Found\r\nServer: Insomnia Server\r\nContent-Length: "@
                                + decimal(site.pages[Status::NotFound].len())
                                + "\r\nContent-Type: text/html\r\n\r\n"@,
                        ),
                    ),
                ),
                ActionView::Send(StepView::Flush),
                ActionView::Send(StepView::Write(site.pages[Status::NotFound])),
                ActionView::Send(StepView::Flush),
                ActionView::Done(Ok(if connection is Close { HttpHandleStatus::EOF } else { HttpHandleStatus::Continue })),
            ],
        ),
{
    let page = site.pages[Status::NotFound];
    let size = page.len() as usize;
    let steps = page_steps(site, Status::NotFound, "text/html"@).push(StepView::Flush);
    let outcome: Outcome = Ok(afterwards(connection));
    let head = "HTTP/1.1 404 Not Found\r\nServer: Insomnia Server\r\nContent-Length: "@ + decimal(size as nat)
        + "\r\nContent-Type: text/html\r\n\r\n"@;
    reveal_strlit("HTTP/1.1 404 Not Found\r\nServer: Insomnia Server\r\nContent-Length: ");
    reveal_strlit("\r\nContent-Type: text/html\r\n\r\n");
    reveal_strlit("HTTP/1.1 404 Not Found\r\n");
    reveal_strlit("Server: Insomnia Server\r\n");
    reveal_strlit("Content-Length: ");
    reveal_strlit("Content-Type: ");
    reveal_strlit("text/html");
    reveal_strlit("\r\n");
    reveal_strlit("\r\n\r\n");
    law_header_bytes(Status::NotFound, Some(size), "text/html"@);
    assert("HTTP/1.1 404 Not Found\r\n"@ + "Server: Insomnia Server\r\n"@ + (
    "Content-Length: "@ + decimal(size as nat) + "\r\n"@) + ("Content-Type: "@ + "text/html"@
        + "\r\n\r\n"@) =~= head);
    lemma_answer_sent(site, PhaseView::Inspecting(connection), EventView::Kind(Ok(false)), steps, outcome);
    assert(seq![EventView::Kind(Ok(false))] + all_sent(4) =~= seq![
        EventView::Kind(Ok(false)),
        EventView::Sent(Ok(())),
        EventView::Sent(Ok(())),
        EventView::Sent(Ok(())),
        EventView::Sent(Ok(())),
    ]);
    assert(sends(steps).push(ActionView::Done(concluded(outcome))) =~= seq![
        ActionView::Send(StepView::Write(encode_utf8(head))),
        ActionView::Send(StepView::Flush),
        ActionView::Send(StepView::Write(page)),
        ActionView::Send(StepView::Flush),
        ActionView::Done(Ok(if connection is Close { HttpHandleStatus::EOF } else { HttpHandleStatus::Continue })),
    ]);
}

/// A `POST` of anything but `/echo` is answered with 405 and the page for it.
pub proof fn law_other_post_answer(site: Site, request: Request)
    requires
        request.method is POST,
        request.uri != "/echo"@,
        site.pages[Status::MethodNotAllowed].len() <= usize::MAX,
    ensures
        run(
            site,
            PhaseView::Received(Ok(request)),
            seq![
                EventView::Respond,
                EventView::Sent(Ok(())),
                EventView::Sent(Ok(())),
                EventView::Sent(Ok(())),
                EventView::Sent(Ok(())),
            ],
        ) == (
            PhaseView::Idle,
            seq![
                ActionView::Send(
                    StepView::Write(
                        encode_utf8(
                            "HTTP/1.1 405 Method Not Allowed\r\nServer: Insomnia Server\r\nContent-Length: "@
                                + decimal(site.pages[Status::MethodNotAllowed].len())
                                + "\r\nContent-Type: text/html\r\n\r\n"@,
                        ),
                    ),
                ),
                ActionView::Send(StepView::Flush),
                ActionView::Send(StepView::Write(site.pages[Status::MethodNotAllowed])),
                ActionView::Send(StepView::Flush),
                ActionView::Done(Ok(if request.connection is Close { HttpHandleStatus::EOF } else { HttpHandleStatus::Continue })),
            ],
        ),
{
    let page = site.pages[Status::MethodNotAllowed];
    let size = page.len() as usize;
    let steps = page_steps(site, Status::MethodNotAllowed, "text/html"@).push(StepView::Flush);
    let outcome: Outcome = Ok(afterwards(request.connection));
    let head = "HTTP/1.1 405 Method Not Allowed\r\nServer: Insomnia Server\r\nContent-Length: "@ + decimal(size as nat)
        + "\r\nContent-Type: text/html\r\n\r\n"@;
    reveal_strlit("HTTP/1.1 405 Method Not Allowed\r\nServer: Insomnia Server\r\nContent-Length: ");
    reveal_strlit("\r\nContent-Type: text/html\r\n\r\n");
    reveal_strlit("HTTP/1.1 405 Method Not Allowed\r\n");
    reveal_strlit("Server: Insomnia Server\r\n");
    reveal_strlit("Content-Length: ");
    reveal_strlit("Content-Type: ");
    reveal_strlit("text/html");
    reveal_strlit("\r\n");
    reveal_strlit("\r\n\r\n");
    law_header_bytes(Status::MethodNotAllowed, Some(size), "text/html"@);
    assert("HTTP/1.1 405 Method Not Allowed\r\n"@ + "Server: Insomnia Server\r\n"@ + (
    "Content-Length: "@ + decimal(size as nat) + "\r\n"@) + ("Content-Type: "@ + "text/html"@
        + "\r\n\r\n"@) =~= head);
    lemma_answer_sent(site, PhaseView::Received(Ok(request)), EventView::Respond, steps, outcome);
    assert(seq![EventView::Respond] + all_sent(4) =~= seq![
        EventView::Respond,
        EventView::Sent(Ok(())),
        EventView::Sent(Ok(())),
        EventView::Sent(Ok(())),
        EventView::Sent(Ok(())),
    ]);
    assert(sends(steps).push(ActionView::Done(concluded(outcome))) =~= seq![
        ActionView::Send(StepView::Write(encode_utf8(head))),
        ActionView::Send(StepView::Flush),
        ActionView::Send(StepView::Write(page)),
        ActionView::Send(StepView::Flush),
        ActionView::Done(Ok(if request.connection is Close { HttpHandleStatus::EOF } else { HttpHandleStatus::Continue })),
    ]);
}

/// A method that there is none of is answered with 405 and the page for it.
pub proof fn law_unknown_method_answer(site: Site, connection: ConnectionType)
    requires
        site.pages[Status::MethodNotAllowed].len() <= usize::MAX,
    ensures
        run(
            site,
            PhaseView::UnknownMethod(connection),
            seq![
                EventView::Respond,
                EventView::Sent(Ok(())),
                EventView::Sent(Ok(())),
                EventView::Sent(Ok(())),
                EventView::Sent(Ok(())),
            ],
        ) == (
            PhaseView::Idle,
            seq![
                ActionView::Send(
                    StepView::Write(
                        encode_utf8(
                            "HTTP/1.1 405 Method Not Allowed\r\nServer: Insomnia Server\r\nContent-Length: "@
                                + decimal(site.pages[Status::MethodNotAllowed].len())
                                + "\r\nContent-Type: text/html\r\n\r\n"@,
                        ),
                    ),
                ),
                ActionView::Send(StepView::Flush),
                ActionView::Send(StepView::Write(site.pages[Status::MethodNotAllowed])),
                ActionView::Send(StepView::Flush),
                ActionView::Done(Ok(if connection is Close { HttpHandleStatus::EOF } else { HttpHandleStatus::Continue })),
            ],
        ),
{
    let page = site.pages[Status::MethodNotAllowed];
    let size = page.len() as usize;
    let steps = page_steps(site, Status::MethodNotAllowed, "text/html"@).push(StepView::Flush);
    let outcome: Outcome = Ok(afterwards(connection));
    let head = "HTTP/1.1 405 Method Not Allowed\r\nServer: Insomnia Server\r\nContent-Length: "@ + decimal(size as nat)
        + "\r\nContent-Type: text/html\r\n\r\n"@;
    reveal_strlit("HTTP/1.1 405 Method Not Allowed\r\nServer: Insomnia Server\r\nContent-Length: ");
    reveal_strlit("\r\nContent-Type: text/html\r\n\r\n");
    reveal_strlit("HTTP/1.1 405 Method Not Allowed\r\n");
    reveal_strlit("Server: Insomnia Server\r\n");
    reveal_strlit("Content-Length: ");
    reveal_strlit("Content-Type: ");
    reveal_strlit("text/html");
    reveal_strlit("\r\n");
    reveal_strlit("\r\n\r\n");
    law_header_bytes(Status::MethodNotAllowed, Some(size), "text/html"@);
    assert("HTTP/1.1 405 Method Not Allowed\r\n"@ + "Server: Insomnia Server\r\n"@ + (
    "Content-Length: "@ + decimal(size as nat) + "\r\n"@) + ("Content-Type: "@ + "text/html"@
        + "\r\n\r\n"@) =~= head);
    lemma_answer_sent(site, PhaseView::UnknownMethod(connection), EventView::Respond, steps, outcome);
    assert(seq![EventView::Respond] + all_sent(4) =~= seq![
        EventView::Respond,
        EventView::Sent(Ok(())),
        EventView::Sent(Ok(())),
        EventView::Sent(Ok(())),
        EventView::Sent(Ok(())),
    ]);
    assert(sends(steps).push(ActionView::Done(concluded(outcome))) =~= seq![
        ActionView::Send(StepView::Write(encode_utf8(head))),
        ActionView::Send(StepView::Flush),
        ActionView::Send(StepView::Write(page)),
        ActionView::Send(StepView::Flush),
        ActionView::Done(Ok(if connection is Close { HttpHandleStatus::EOF } else { HttpHandleStatus::Continue })),
    ]);
}

/// A request that could not be read is answered with 500 and the page for it, and its error is
/// passed on.
pub proof fn law_unreadable_answer(site: Site, e: HandleError)
    requires
        e != HandleError::Internal(InternalError::EOFReached),
        e matches HandleError::Io(io) ==> io.kind == IoErrorKind::Other,
        site.pages[Status::InternalServerError].len() <= usize::MAX,
    ensures
        run(
            site,
            PhaseView::Received(Err(e)),
            seq![
                EventView::Respond,
                EventView::Sent(Ok(())),
                EventView::Sent(Ok(())),
                EventView::Sent(Ok(())),
                EventView::Sent(Ok(())),
            ],
        ) == (
            PhaseView::Idle,
            seq![
                ActionView::Send(
                    StepView::Write(
                        encode_utf8(
                            "HTTP/1.1 500 Internal Server Error\r\nServer: Insomnia Server\r\nContent-Length: "@
                                + decimal(site.pages[Status::InternalServerError].len())
                                + "\r\nContent-Type: text/plain\r\n\r\n"@,
                        ),
                    ),
                ),
                ActionView::Send(StepView::Flush),
                ActionView::Send(StepView::Write(site.pages[Status::InternalServerError])),
                ActionView::Send(StepView::Flush),
                ActionView::Done(Err(e)),
            ],
        ),
{
    let page = site.pages[Status::InternalServerError];
    let size = page.len() as usize;
    let steps = page_steps(site, Status::InternalServerError, "text/plain"@).push(StepView::Flush);
    let outcome: Outcome = Err(e);
    let head = "HTTP/1.1 500 Internal Server Error\r\nServer: Insomnia Server\r\nContent-Length: "@ + decimal(size as nat)
        + "\r\nContent-Type: text/plain\r\n\r\n"@;
    reveal_strlit("HTTP/1.1 500 Internal Server Error\r\nServer: Insomnia Server\r\nContent-Length: ");
    reveal_strlit("\r\nContent-Type: text/plain\r\n\r\n");
    reveal_strlit("HTTP/1.1 500 Internal Server Error\r\n");
    reveal_strlit("Server: Insomnia Server\r\n");
    reveal_strlit("Content-Length: ");
    reveal_strlit("Content-Type: ");
    reveal_strlit("text/plain");
    reveal_strlit("\r\n");
    reveal_strlit("\r\n\r\n");
    law_header_bytes(Status::InternalServerError, Some(size), "text/plain"@);
    assert("HTTP/1.1 500 Internal Server Error\r\n"@ + "Server: Insomnia Server\r\n"@ + (
    "Content-Length: "@ + decimal(size as nat) + "\r\n"@) + ("Content-Type: "@ + "text/plain"@
        + "\r\n\r\n"@) =~= head);
    lemma_answer_sent(site, PhaseView::Received(Err(e)), EventView::Respond, steps, outcome);
    assert(seq![EventView::Respond] + all_sent(4) =~= seq![
        EventView::Respond,
        EventView::Sent(Ok(())),
        EventView::Sent(Ok(())),
        EventView::Sent(Ok(())),
        EventView::Sent(Ok(())),
    ]);
    assert(sends(steps).push(ActionView::Done(concluded(outcome))) =~= seq![
        ActionView::Send(StepView::Write(encode_utf8(head))),
        ActionView::Send(StepView::Flush),
        ActionView::Send(StepView::Write(page)),
        ActionView::Send(StepView::Flush),
        ActionView::Done(Err(e)),
    ]);
}

/// A `POST` of `/echo` is answered with 200 and as much of its body as it announces.
pub proof fn law_echo_answer(site: Site, request: Request, size: usize)
    requires
        request.uri == "/echo"@,
        request.method is POST,
        request.content_length == Some(size),
    ensures
        run(
            site,
            PhaseView::Received(Ok(request)),
            seq![
                EventView::Respond,
                EventView::Sent(Ok(())),
                EventView::Sent(Ok(())),
                EventView::Sent(Ok(())),
                EventView::Sent(Ok(())),
            ],
        ) == (
            PhaseView::Idle,
            seq![
                ActionView::Send(StepView::Write(encode_utf8("HTTP/1.1 200 OK\r\nServer: Insomnia Server\r\nContent-Type: text/plain\r\n\r\n"@))),
                ActionView::Send(StepView::Flush),
                ActionView::Send(StepView::CopyBody(size as u64)),
                ActionView::Send(StepView::Flush),
                ActionView::Done(Ok(if request.connection is Close { HttpHandleStatus::EOF } else { HttpHandleStatus::Continue })),
            ],
        ),
{
    let steps = header_steps(Status::OK, None, "text/plain"@).push(StepView::CopyBody(size as u64)).push(StepView::Flush);
    let outcome: Outcome = Ok(afterwards(request.connection));
    let head = "HTTP/1.1 200 OK\r\nServer: Insomnia Server\r\nContent-Type: text/plain\r\n\r\n"@;
    reveal_strlit("HTTP/1.1 200 OK\r\nServer: Insomnia Server\r\nContent-Type: text/plain\r\n\r\n");
    reveal_strlit("HTTP/1.1 200 OK\r\n");
    reveal_strlit("Server: Insomnia Server\r\n");
    reveal_strlit("Content-Length: ");
    reveal_strlit("Content-Type: ");
    reveal_strlit("text/plain");
    reveal_strlit("\r\n");
    reveal_strlit("\r\n\r\n");
    law_header_bytes(Status::OK, None, "text/plain"@);
    assert("HTTP/1.1 200 OK\r\n"@ + "Server: Insomnia Server\r\n"@ + Seq::<char>::empty() + ("Content-Type: "@ + "text/plain"@ + "\r\n\r\n"@) =~= head);
    lemma_answer_sent(site, PhaseView::Received(Ok(request)), EventView::Respond, steps, outcome);
    assert(seq![EventView::Respond] + all_sent(4) =~= seq![
        EventView::Respond,
        EventView::Sent(Ok(())),
        EventView::Sent(Ok(())),
        EventView::Sent(Ok(())),
        EventView::Sent(Ok(())),
    ]);
    assert(sends(steps).push(ActionView::Done(concluded(outcome))) =~= seq![
        ActionView::Send(StepView::Write(encode_utf8("HTTP/1.1 200 OK\r\nServer: Insomnia Server\r\nContent-Type: text/plain\r\n\r\n"@))),
        ActionView::Send(StepView::Flush),
        ActionView::Send(StepView::CopyBody(size as u64)),
        ActionView::Send(StepView::Flush),
        ActionView::Done(Ok(if request.connection is Close { HttpHandleStatus::EOF } else { HttpHandleStatus::Continue })),
    ]);
}

/// A `POST` of `/echo` that announces no size gets a header and ends in an error.
pub proof fn law_bare_echo_answer(site: Site, request: Request)
    requires
        request.uri == "/echo"@,
        request.method is POST,
        request.content_length is None,
    ensures
        run(
            site,
            PhaseView::Received(Ok(request)),
            seq![
                EventView::Respond,
                EventView::Sent(Ok(())),
                EventView::Sent(Ok(())),
            ],
        ) == (
            PhaseView::Idle,
            seq![
                ActionView::Send(StepView::Write(encode_utf8("HTTP/1.1 200 OK\r\nServer: Insomnia Server\r\nContent-Type: text/plain\r\n\r\n"@))),
                ActionView::Send(StepView::Flush),
                ActionView::Done(Err(HandleError::Internal(InternalError::RequiredHeaderField))),
            ],
        ),
{
    let steps = header_steps(Status::OK, None, "text/plain"@);
    let outcome: Outcome = Err(HandleError::Internal(InternalError::RequiredHeaderField));
    let head = "HTTP/1.1 200 OK\r\nServer: Insomnia Server\r\nContent-Type: text/plain\r\n\r\n"@;
    reveal_strlit("HTTP/1.1 200 OK\r\nServer: Insomnia Server\r\nContent-Type: text/plain\r\n\r\n");
    reveal_strlit("HTTP/1.1 200 OK\r\n");
    reveal_strlit("Server: Insomnia Server\r\n");
    reveal_strlit("Content-Length: ");
    reveal_strlit("Content-Type: ");
    reveal_strlit("text/plain");
    reveal_strlit("\r\n");
    reveal_strlit("\r\n\r\n");
    law_header_bytes(Status::OK, None, "text/plain"@);
    assert("HTTP/1.1 200 OK\r\n"@ + "Server: Insomnia Server\r\n"@ + Seq::<char>::empty() + ("Content-Type: "@ + "text/plain"@ + "\r\n\r\n"@) =~= head);
    lemma_answer_sent(site, PhaseView::Received(Ok(request)), EventView::Respond, steps, outcome);
    assert(seq![EventView::Respond] + all_sent(2) =~= seq![
        EventView::Respond,
        EventView::Sent(Ok(())),
        EventView::Sent(Ok(())),
    ]);
    assert(sends(steps).push(ActionView::Done(concluded(outcome))) =~= seq![
        ActionView::Send(StepView::Write(encode_utf8("HTTP/1.1 200 OK\r\nServer: Insomnia Server\r\nContent-Type: text/plain\r\n\r\n"@))),
        ActionView::Send(StepView::Flush),
        ActionView::Done(Err(HandleError::Internal(InternalError::RequiredHeaderField))),
    ]);
}

/// A regular file is answered with 200, its size and its contents.
pub proof fn law_file_answer(site: Site, connection: ConnectionType, size: u64)
    requires
        size <= usize::MAX,
    ensures
        run(
            site,
            PhaseView::Sizing(connection),
            seq![
                EventView::Length(Ok(size)),
                EventView::Sent(Ok(())),
                EventView::Sent(Ok(())),
                EventView::Sent(Ok(())),
                EventView::Sent(Ok(())),
            ],
        ) == (
            PhaseView::Idle,
            seq![
                ActionView::Send(StepView::Write(encode_utf8("HTTP/1.1 200 OK\r\nServer: Insomnia Server\r\nContent-Length: "@ + decimal(size as nat) + "\r\nContent-Type: text/html\r\n\r\n"@))),
                ActionView::Send(StepView::Flush),
                ActionView::Send(StepView::CopyFile),
                ActionView::Send(StepView::Flush),
                ActionView::Done(Ok(if connection is Close { HttpHandleStatus::EOF } else { HttpHandleStatus::Continue })),
            ],
        ),
{
    let steps = header_steps(Status::OK, Some(size as usize), "text/html"@).push(StepView::CopyFile).push(StepView::Flush);
    let outcome: Outcome = Ok(afterwards(connection));
    let head = "HTTP/1.1 200 OK\r\nServer: Insomnia Server\r\nContent-Length: "@ + decimal(size as nat) + "\r\nContent-Type: text/html\r\n\r\n"@;
    reveal_strlit("HTTP/1.1 200 OK\r\nServer: Insomnia Server\r\nContent-Length: ");
    reveal_strlit("\r\nContent-Type: text/html\r\n\r\n");
    reveal_strlit("HTTP/1.1 200 OK\r\n");
    reveal_strlit("Server: Insomnia Server\r\n");
    reveal_strlit("Content-Length: ");
    reveal_strlit("Content-Type: ");
    reveal_strlit("text/html");
    reveal_strlit("\r\n");
    reveal_strlit("\r\n\r\n");
    law_header_bytes(Status::OK, Some(size as usize), "text/html"@);
    assert("HTTP/1.1 200 OK\r\n"@ + "Server: Insomnia Server\r\n"@ + ("Content-Length: "@ + decimal(size as nat) + "\r\n"@) + ("Content-Type: "@ + "text/html"@ + "\r\n\r\n"@) =~= head);
    lemma_answer_sent(site, PhaseView::Sizing(connection), EventView::Length(Ok(size)), steps, outcome);
    assert(seq![EventView::Length(Ok(size))] + all_sent(4) =~= seq![
        EventView::Length(Ok(size)),
        EventView::Sent(Ok(())),
        EventView::Sent(Ok(())),
        EventView::Sent(Ok(())),
        EventView::Sent(Ok(())),
    ]);
    assert(sends(steps).push(ActionView::Done(concluded(outcome))) =~= seq![
        ActionView::Send(StepView::Write(encode_utf8("HTTP/1.1 200 OK\r\nServer: Insomnia Server\r\nContent-Length: "@ + decimal(size as nat) + "\r\nContent-Type: text/html\r\n\r\n"@))),
        ActionView::Send(StepView::Flush),
        ActionView::Send(StepView::CopyFile),
        ActionView::Send(StepView::Flush),
        ActionView::Done(Ok(if connection is Close { HttpHandleStatus::EOF } else { HttpHandleStatus::Continue })),
    ]);
}

/// A regular file whose size cannot be found out is answered with 200 and its contents.
pub proof fn law_unsized_file_answer(site: Site, connection: ConnectionType, e: IoError)
    ensures
        run(
            site,
            PhaseView::Sizing(connection),
            seq![
                EventView::Length(Err(e)),
                EventView::Sent(Ok(())),
                EventView::Sent(Ok(())),
                EventView::Sent(Ok(())),
                EventView::Sent(Ok(())),
            ],
        ) == (
            PhaseView::Idle,
            seq![
                ActionView::Send(StepView::Write(encode_utf8("HTTP/1.1 200 OK\r\nServer: Insomnia Server\r\nContent-Type: text/html\r\n\r\n"@))),
                ActionView::Send(StepView::Flush),
                ActionView::Send(StepView::CopyFile),
                ActionView::Send(StepView::Flush),
                ActionView::Done(Ok(if connection is Close { HttpHandleStatus::EOF } else { HttpHandleStatus::Continue })),
            ],
        ),
{
    let steps = header_steps(Status::OK, None, "text/html"@).push(StepView::CopyFile).push(StepView::Flush);
    let outcome: Outcome = Ok(afterwards(connection));
    let head = "HTTP/1.1 200 OK\r\nServer: Insomnia Server\r\nContent-Type: text/html\r\n\r\n"@;
    reveal_strlit("HTTP/1.1 200 OK\r\nServer: Insomnia Server\r\nContent-Type: text/html\r\n\r\n");
    reveal_strlit("HTTP/1.1 200 OK\r\n");
    reveal_strlit("Server: Insomnia Server\r\n");
    reveal_strlit("Content-Length: ");
    reveal_strlit("Content-Type: ");
    reveal_strlit("text/html");
    reveal_strlit("\r\n");
    reveal_strlit("\r\n\r\n");
    law_header_bytes(Status::OK, None, "text/html"@);
    assert("HTTP/1.1 200 OK\r\n"@ + "Server: Insomnia Server\r\n"@ + Seq::<char>::empty() + ("Content-Type: "@ + "text/html"@ + "\r\n\r\n"@) =~= head);
    lemma_answer_sent(site, PhaseView::Sizing(connection), EventView::Length(Err(e)), steps, outcome);
    assert(seq![EventView::Length(Err(e))] + all_sent(4) =~= seq![
        EventView::Length(Err(e)),
        EventView::Sent(Ok(())),
        EventView::Sent(Ok(())),
        EventView::Sent(Ok(())),
        EventView::Sent(Ok(())),
    ]);
    assert(sends(steps).push(ActionView::Done(concluded(outcome))) =~= seq![
        ActionView::Send(StepView::Write(encode_utf8("HTTP/1.1 200 OK\r\nServer: Insomnia Server\r\nContent-Type: text/html\r\n\r\n"@))),
        ActionView::Send(StepView::Flush),
        ActionView::Send(StepView::CopyFile),
        ActionView::Send(StepView::Flush),
        ActionView::Done(Ok(if connection is Close { HttpHandleStatus::EOF } else { HttpHandleStatus::Continue })),
    ]);
}

/// The steps between the answer and the file: an opened file is looked at, and a regular one is
/// measured.  A kind that cannot be found out ends the request.
pub proof fn law_opened_is_looked_at(site: Site, connection: ConnectionType, e: IoError)
    ensures
        step(site, PhaseView::Opening(connection), EventView::Opened(true)) == (
            PhaseView::Inspecting(connection),
            ActionView::CheckKind,
        ),
        step(site, PhaseView::Inspecting(connection), EventView::Kind(Ok(true))) == (
            PhaseView::Sizing(connection),
            ActionView::CheckLength,
        ),
        step(site, PhaseView::Inspecting(connection), EventView::Kind(Err(e))) == (
            PhaseView::Idle,
            ActionView::Done(
                if e.kind == IoErrorKind::Other {
                    Err(HandleError::Io(e))
                } else {
                    Ok(HttpHandleStatus::EOF)
                },
            ),
        ),
{
}

/// Steps are made one after the other; after the last one the request ends as it is to end,
/// and a step that fails ends it at once.
pub proof fn law_steps(
    site: Site,
    first: StepView,
    rest: Seq<StepView>,
    outcome: Outcome,
    e: IoError,
)
    ensures
        step(
            site,
            PhaseView::Sending(seq![first] + rest, outcome),
            EventView::Sent(Ok(())),
        ) == (PhaseView::Sending(rest, outcome), ActionView::Send(first)),
        !(outcome matches Err(HandleError::Io(io)) && io.kind != IoErrorKind::Other) && outcome
            != Err::<HttpHandleStatus, HandleError>(
            HandleError::Internal(InternalError::EOFReached),
        ) ==> step(
            site,
            PhaseView::Sending(Seq::empty(), outcome),
            EventView::Sent(Ok(())),
        ) == (PhaseView::Idle, ActionView::Done(outcome)),
        step(site, PhaseView::Sending(rest, outcome), EventView::Sent(Err(e))) == (
            PhaseView::Idle,
            ActionView::Done(
                if e.kind == IoErrorKind::Other {
                    Err(HandleError::Io(e))
                } else {
                    Ok(HttpHandleStatus::EOF)
                },
            ),
        ),
{
    assert((seq![first] + rest).skip(1) == rest);
}

/// A header ends with its first empty line: when the last four characters are a carriage
/// return and a line feed, twice.
pub proof fn law_end_of_header(text: Seq<char>)
    ensures
        ends_header(text) <==> {
            let n = text.len() as int;
            n >= 4 && text[n - 4] == '\r' && text[n - 3] == '\n' && text[n - 2] == '\r' && text[n
                - 1] == '\n'
        },
{
    reveal_strlit("\r\n\r\n");
    let n = text.len() as int;
    if n >= 4 {
        let tail = text.subrange(n - 4, n);
        assert(tail[0] == text[n - 4] && tail[1] == text[n - 3] && tail[2] == text[n - 2]
            && tail[3] == text[n - 1]);
        if text[n - 4] == '\r' && text[n - 3] == '\n' && text[n - 2] == '\r' && text[n - 1]
            == '\n' {
            assert(tail =~= "\r\n\r\n"@);
        }
    }
}

/// How a header is read: from the beginning, adding each read, until it ends; a read of
/// nothing or a lost peer is the end of the connection, and any other failure is kept.
pub proof fn law_reading(site: Site, text: Seq<char>, line: Seq<char>, e: IoError)
    ensures
        step(site, PhaseView::Idle, EventView::Begin) == (
            PhaseView::Reading(Seq::empty()),
            ActionView::ReadLine,
        ),
        line.len() > 0 && !ends_header(text + line) ==> step(
            site,
            PhaseView::Reading(text),
            EventView::Line(Ok(line)),
        ) == (PhaseView::Reading(text + line), ActionView::ReadLine),
        line.len() > 0 && ends_header(text + line) ==> step(
            site,
            PhaseView::Reading(text),
            EventView::Line(Ok(line)),
        ) == (
            match unknown_method(text + line) {
                Some(connection) => PhaseView::UnknownMethod(connection),
                None => PhaseView::Received(request_of(text + line)),
            },
            ActionView::Respond,
        ),
        step(site, PhaseView::Reading(text), EventView::Line(Ok(Seq::empty()))) == (
            PhaseView::Received(Err(HandleError::Internal(InternalError::EOFReached))),
            ActionView::Respond,
        ),
        step(site, PhaseView::Reading(text), EventView::Line(Err(e))) == (
            PhaseView::Received(
                Err(
                    if e.kind == IoErrorKind::Other {
                        HandleError::Io(e)
                    } else {
                        HandleError::Internal(InternalError::EOFReached)
                    },
                ),
            ),
            ActionView::Respond,
        ),
        step(
            site,
            PhaseView::Received(Err(HandleError::Internal(InternalError::EOFReached))),
            EventView::Respond,
        ) == (PhaseView::Idle, ActionView::Done(Ok(HttpHandleStatus::EOF))),
{
}

/// What a `GET` of a regular file is sent, byte for byte, when nothing fails.
pub proof fn law_file_exchange(
    site: Site,
    files: Map<Seq<char>, Entry>,
    header: Seq<char>,
    rest: Seq<u8>,
    events: Seq<EventView>,
    request: Request,
    path: Seq<char>,
    contents: Seq<u8>,
)
    requires
        is_header(header),
        sizes_fit(files),
        handled(site, World::at(files, encode_utf8(header) + rest), events),
        request_of(header) == Ok::<Request, HandleError>(request),
        request.method is GET,
        request.uri.len() > 1 ==> request.uri[1] != '/',
        path == ({
            let name = request.uri.skip(1);
            let dir = site.serve_dir;
            if dir.len() == 0 || dir[dir.len() - 1] == '/' {
                dir + name
            } else {
                dir + seq!['/'] + name
            }
        }),
        is_inside(path, site.serve_dir),
        files.contains_key(path),
        files[path] == Entry::File(contents),
        contents.len() <= usize::MAX,
    ensures
        sent(World::at(files, encode_utf8(header) + rest), actions_of(site, events))
            == encode_utf8(
            "HTTP/1.1 200 OK\r\nServer: Insomnia Server\r\nContent-Length: "@ + decimal(
                contents.len(),
            ) + "\r\nContent-Type: text/html\r\n\r\n"@,
        ) + contents,
        actions_of(site, events).last() == ActionView::Done(
            Ok(
                if request.connection is Close {
                    HttpHandleStatus::EOF
                } else {
                    HttpHandleStatus::Continue
                },
            ),
        ),
{
    let size = contents.len() as usize;
    let head = "HTTP/1.1 200 OK\r\nServer: Insomnia Server\r\nContent-Length: "@ + decimal(
        size as nat,
    ) + "\r\nContent-Type: text/html\r\n\r\n"@;
    if unknown_method(header) is Some {
        law_unknown_method_is_malformed(header);
    }
    law_uri_is_a_word(header, request);
    law_response_sent(site, files, header, rest, events);
    law_joined(site.serve_dir, request.uri.skip(1));
    assert(!is_absolute(request.uri.skip(1)));
    assert(path == target(site, request.uri));
    assert(!is_echo(request));
    reveal_strlit("HTTP/1.1 200 OK\r\nServer: Insomnia Server\r\nContent-Length: ");
    reveal_strlit("\r\nContent-Type: text/html\r\n\r\n");
    reveal_strlit("HTTP/1.1 200 OK\r\n");
    reveal_strlit("Server: Insomnia Server\r\n");
    reveal_strlit("Content-Length: ");
    reveal_strlit("Content-Type: ");
    reveal_strlit("text/html");
    reveal_strlit("\r\n");
    reveal_strlit("\r\n\r\n");
    law_header_bytes(Status::OK, Some(size), "text/html"@);
    assert("HTTP/1.1 200 OK\r\n"@ + "Server: Insomnia Server\r\n"@ + ("Content-Length: "@
        + decimal(size as nat) + "\r\n"@) + ("Content-Type: "@ + "text/html"@ + "\r\n\r\n"@)
        =~= head);
}

/// What a `POST` of `/echo` is sent, byte for byte, when nothing fails: a header, and what
/// follows its own header in the stream, as much as it announces or as there is.
pub proof fn law_echo_exchange(
    site: Site,
    files: Map<Seq<char>, Entry>,
    header: Seq<char>,
    rest: Seq<u8>,
    events: Seq<EventView>,
    request: Request,
    size: usize,
)
    requires
        is_header(header),
        sizes_fit(files),
        handled(site, World::at(files, encode_utf8(header) + rest), events),
        request_of(header) == Ok::<Request, HandleError>(request),
        request.method is POST,
        request.uri == "/echo"@,
        request.content_length == Some(size),
    ensures
        sent(World::at(files, encode_utf8(header) + rest), actions_of(site, events))
            == encode_utf8(
            "HTTP/1.1 200 OK\r\nServer: Insomnia Server\r\nContent-Type: text/plain\r\n\r\n"@,
        ) + rest.take(
            if size <= rest.len() {
                size as int
            } else {
                rest.len() as int
            },
        ),
        actions_of(site, events).last() == ActionView::Done(
            Ok(
                if request.connection is Close {
                    HttpHandleStatus::EOF
                } else {
                    HttpHandleStatus::Continue
                },
            ),
        ),
{
    let head =
        "HTTP/1.1 200 OK\r\nServer: Insomnia Server\r\nContent-Type: text/plain\r\n\r\n"@;
    if unknown_method(header) is Some {
        law_unknown_method_is_malformed(header);
    }
    law_response_sent(site, files, header, rest, events);
    reveal_strlit(
        "HTTP/1.1 200 OK\r\nServer: Insomnia Server\r\nContent-Type: text/plain\r\n\r\n",
    );
    reveal_strlit("HTTP/1.1 200 OK\r\n");
    reveal_strlit("Server: Insomnia Server\r\n");
    reveal_strlit("Content-Type: ");
    reveal_strlit("text/plain");
    reveal_strlit("\r\n\r\n");
    law_header_bytes(Status::OK, None, "text/plain"@);
    assert("HTTP/1.1 200 OK\r\n"@ + "Server: Insomnia Server\r\n"@ + Seq::<char>::empty() + (
    "Content-Type: "@ + "text/plain"@ + "\r\n\r\n"@) =~= head);
}

} // verus!
