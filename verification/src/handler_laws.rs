//! What holds of all connections.

use vstd::prelude::*;

use crate::context::Site;
use crate::error::{HandleError, InternalError, IoError};
use crate::handler::{
    accepts, after_header, afterwards, answer, concluded, header_steps, page_answer, page_steps,
    plain_step, sending, step, target, ActionView, EventView, HttpHandleStatus, Outcome, PhaseView,
    StepView,
};
use crate::path::{
    components, is_absolute, is_inside, law_never_above_is_inside, law_relative_path, names,
    resolved, stays_below,
};
use crate::request::{format_error, request_of, unknown_method, ConnectionType, Request};
use crate::request_laws::{law_header_errors, law_unknown_method_is_malformed, law_uri_is_a_word};
use crate::response::header_bytes;
use crate::status::Status;
use crate::text::pieces;

verus! {

/// The phase after a sequence of events, and the actions that they brought.
pub open spec fn run(site: Site, phase: PhaseView, events: Seq<EventView>) -> (
    PhaseView,
    Seq<ActionView>,
)
    decreases events.len(),
{
    if events.len() == 0 {
        (phase, Seq::empty())
    } else {
        let (between, actions) = run(site, phase, events.drop_last());
        let (next, action) = step(site, between, events.last());
        (next, actions.push(action))
    }
}

/// `n` steps of a response that were made without error.
pub open spec fn all_sent(n: nat) -> Seq<EventView> {
    Seq::new(n, |i: int| EventView::Sent(Ok(())))
}

/// The actions that ask for the given steps.
pub open spec fn sends(steps: Seq<StepView>) -> Seq<ActionView> {
    Seq::new(steps.len(), |i: int| ActionView::Send(steps[i]))
}

/// The first event decides where the others begin.
pub proof fn lemma_run_first(site: Site, phase: PhaseView, event: EventView, events: Seq<EventView>)
    ensures
        run(site, phase, seq![event] + events) == ({
            let (next, action) = step(site, phase, event);
            let (last, actions) = run(site, next, events);
            (last, seq![action] + actions)
        }),
    decreases events.len(),
{
    let all = seq![event] + events;
    if events.len() == 0 {
        assert(all.drop_last() == Seq::<EventView>::empty());
        assert(run(site, phase, Seq::<EventView>::empty()) == (
            phase,
            Seq::<ActionView>::empty(),
        ));
        let (next, action) = step(site, phase, event);
        assert(Seq::<ActionView>::empty().push(action) == seq![action] + Seq::<
            ActionView,
        >::empty());
    } else {
        lemma_run_first(site, phase, event, events.drop_last());
        assert(all.drop_last() == seq![event] + events.drop_last());
        let (next, action) = step(site, phase, event);
        let (between, actions) = run(site, next, events.drop_last());
        let (last, final_action) = step(site, between, events.last());
        assert((seq![action] + actions).push(final_action) == seq![action] + actions.push(
            final_action,
        ));
    }
}

/// The action always fits the phase: it asks for what is waited for, and nothing is waited
/// for but the next request when the current one is done.  What comes of the action is then
/// accepted, whatever it is.  The step from a received request to its answer is the one
/// exception; `law_answer_follows` is about it.
#[verifier::spinoff_prover]
pub proof fn law_action_fits_phase(site: Site, phase: PhaseView, event: EventView)
    requires
        accepts(phase, event),
    ensures
        ({
            let (next, action) = step(site, phase, event);
            match next {
                PhaseView::Idle => action is Done && accepts(next, EventView::Begin),
                PhaseView::Reading(_) => action is ReadLine && (forall|read|
                    accepts(next, EventView::Line(read))),
                PhaseView::Received(_) => action is Respond,
                PhaseView::UnknownMethod(_) => action is Respond && accepts(
                    next,
                    EventView::Respond,
                ),
                PhaseView::Opening(_) => action is OpenFile && (forall|opened|
                    accepts(next, EventView::Opened(opened))),
                PhaseView::Inspecting(_) => action is CheckKind && (forall|is_file|
                    accepts(next, EventView::Kind(is_file))),
                PhaseView::Sizing(_) => action is CheckLength && (forall|size|
                    accepts(next, EventView::Length(size))),
                PhaseView::Sending(..) => action is Send && (forall|result|
                    accepts(next, EventView::Sent(result))),
            }
        }),
{
}

/// A header that was read is answered unless it asks for a file by a URI whose first
/// character takes more than one byte.
pub proof fn law_answer_follows(text: Seq<char>)
    ensures
        accepts(after_header(text), EventView::Respond) == match request_of(text) {
            Ok(request) => !(request.method is GET && request.uri[0] > '\x7f'),
            Err(_) => true,
        },
{
    if let Ok(request) = request_of(text) {
        law_uri_is_a_word(text, request);
    }
    if unknown_method(text) is Some {
        law_unknown_method_is_malformed(text);
    }
}

/// Steps that are still to be made are asked for in order, and the request ends after the
/// last of them.
pub proof fn law_steps_in_order(site: Site, rest: Seq<StepView>, outcome: Outcome)
    ensures
        run(site, PhaseView::Sending(rest, outcome), all_sent(rest.len() + 1)) == (
            PhaseView::Idle,
            sends(rest).push(ActionView::Done(concluded(outcome))),
        ),
    decreases rest.len(),
{
    let phase = PhaseView::Sending(rest, outcome);
    let sent = EventView::Sent(Ok(()));
    assert(all_sent(rest.len() + 1) == seq![sent] + all_sent(rest.len()));
    lemma_run_first(site, phase, sent, all_sent(rest.len()));
    if rest.len() == 0 {
        assert(run(site, PhaseView::Idle, all_sent(0)) == (
            PhaseView::Idle,
            Seq::<ActionView>::empty(),
        ));
        assert(seq![ActionView::Done(concluded(outcome))] + Seq::<ActionView>::empty() == sends(
            rest,
        ).push(ActionView::Done(concluded(outcome))));
    } else {
        law_steps_in_order(site, rest.skip(1), outcome);
        assert(seq![ActionView::Send(rest[0])] + sends(rest.skip(1)).push(
            ActionView::Done(concluded(outcome)),
        ) == sends(rest).push(ActionView::Done(concluded(outcome))));
    }
}

/// An answer that consists of the given steps, made without error.
pub proof fn lemma_answer_sent(
    site: Site,
    phase: PhaseView,
    event: EventView,
    steps: Seq<StepView>,
    outcome: Outcome,
)
    requires
        plain_step(site, phase, event) == sending(steps, outcome),
    ensures
        run(site, phase, seq![event] + all_sent(steps.len())) == (
            PhaseView::Idle,
            sends(steps).push(ActionView::Done(concluded(outcome))),
        ),
{
    lemma_run_first(site, phase, event, all_sent(steps.len()));
    if steps.len() == 0 {
        assert(run(site, PhaseView::Idle, all_sent(0)) == (
            PhaseView::Idle,
            Seq::<ActionView>::empty(),
        ));
        assert(seq![ActionView::Done(concluded(outcome))] + Seq::<ActionView>::empty() == sends(
            steps,
        ).push(ActionView::Done(concluded(outcome))));
    } else {
        let rest = steps.skip(1);
        assert(rest.len() + 1 == steps.len());
        law_steps_in_order(site, rest, outcome);
        assert(seq![ActionView::Send(steps[0])] + sends(rest).push(
            ActionView::Done(concluded(outcome)),
        ) == sends(steps).push(ActionView::Done(concluded(outcome))));
    }
}

/// A `POST` of `/echo` is answered with as much of its body as its header announces.
pub proof fn law_echo(site: Site, request: Request, size: usize)
    requires
        request.uri == "/echo"@,
        request.method is POST,
        request.content_length == Some(size),
    ensures
        run(
            site,
            PhaseView::Received(Ok(request)),
            seq![EventView::Respond] + all_sent(4),
        ) == (
            PhaseView::Idle,
            seq![
                ActionView::Send(
                    StepView::Write(header_bytes(Status::OK, None, "text/plain"@)),
                ),
                ActionView::Send(StepView::Flush),
                ActionView::Send(StepView::CopyBody(size as u64)),
                ActionView::Send(StepView::Flush),
                ActionView::Done(Ok(afterwards(request.connection))),
            ],
        ),
{
    let steps = header_steps(Status::OK, None, "text/plain"@).push(
        StepView::CopyBody(size as u64),
    ).push(StepView::Flush);
    let outcome: Outcome = Ok(afterwards(request.connection));
    lemma_answer_sent(
        site,
        PhaseView::Received(Ok(request)),
        EventView::Respond,
        steps,
        outcome,
    );
    assert(sends(steps).push(ActionView::Done(outcome)) =~= seq![
        ActionView::Send(StepView::Write(header_bytes(Status::OK, None, "text/plain"@))),
        ActionView::Send(StepView::Flush),
        ActionView::Send(StepView::CopyBody(size as u64)),
        ActionView::Send(StepView::Flush),
        ActionView::Done(outcome),
    ]);
}

/// Without an announced size there is nothing to send back: the request ends in an error.
pub proof fn law_echo_without_length(site: Site, request: Request)
    requires
        request.uri == "/echo"@,
        request.method is POST,
        request.content_length is None,
    ensures
        run(
            site,
            PhaseView::Received(Ok(request)),
            seq![EventView::Respond] + all_sent(2),
        ) == (
            PhaseView::Idle,
            seq![
                ActionView::Send(
                    StepView::Write(header_bytes(Status::OK, None, "text/plain"@)),
                ),
                ActionView::Send(StepView::Flush),
                ActionView::Done(Err(HandleError::Internal(InternalError::RequiredHeaderField))),
            ],
        ),
{
    let steps = header_steps(Status::OK, None, "text/plain"@);
    let outcome: Outcome = Err(HandleError::Internal(InternalError::RequiredHeaderField));
    lemma_answer_sent(
        site,
        PhaseView::Received(Ok(request)),
        EventView::Respond,
        steps,
        outcome,
    );
    assert(sends(steps).push(ActionView::Done(outcome)) =~= seq![
        ActionView::Send(StepView::Write(header_bytes(Status::OK, None, "text/plain"@))),
        ActionView::Send(StepView::Flush),
        ActionView::Done(outcome),
    ]);
}

/// The actions that answer with the page for a status and keep or close the connection as
/// the client asked.
pub open spec fn page_actions(site: Site, status: Status, connection: ConnectionType) -> Seq<
    ActionView,
> {
    let page = site.pages[status];
    seq![
        ActionView::Send(
            StepView::Write(header_bytes(status, Some(page.len() as usize), "text/html"@)),
        ),
        ActionView::Send(StepView::Flush),
        ActionView::Send(StepView::Write(page)),
        ActionView::Send(StepView::Flush),
        ActionView::Done(Ok(afterwards(connection))),
    ]
}

proof fn lemma_page_answer_sent(
    site: Site,
    phase: PhaseView,
    event: EventView,
    status: Status,
    connection: ConnectionType,
)
    requires
        plain_step(site, phase, event) == page_answer(site, status, connection),
    ensures
        run(site, phase, seq![event] + all_sent(4)) == (
            PhaseView::Idle,
            page_actions(site, status, connection),
        ),
{
    let steps = page_steps(site, status, "text/html"@).push(StepView::Flush);
    let outcome: Outcome = Ok(afterwards(connection));
    lemma_answer_sent(site, phase, event, steps, outcome);
    assert(sends(steps).push(ActionView::Done(outcome)) =~= page_actions(
        site,
        status,
        connection,
    ));
}

/// A `POST` of anything but `/echo` is answered with the page for a method that is not
/// allowed.
pub proof fn law_other_post(site: Site, request: Request)
    requires
        request.uri != "/echo"@,
        request.method is POST,
    ensures
        run(
            site,
            PhaseView::Received(Ok(request)),
            seq![EventView::Respond] + all_sent(4),
        ) == (
            PhaseView::Idle,
            page_actions(site, Status::MethodNotAllowed, request.connection),
        ),
{
    lemma_page_answer_sent(
        site,
        PhaseView::Received(Ok(request)),
        EventView::Respond,
        Status::MethodNotAllowed,
        request.connection,
    );
}

/// A request by a method that there is none of is answered with the page for a method that
/// is not allowed, and the connection is kept or closed as its header asks.
pub proof fn law_unknown_method(site: Site, text: Seq<char>, connection: ConnectionType)
    requires
        unknown_method(text) == Some(connection),
    ensures
        run(site, after_header(text), seq![EventView::Respond] + all_sent(4)) == (
            PhaseView::Idle,
            page_actions(site, Status::MethodNotAllowed, connection),
        ),
{
    lemma_page_answer_sent(
        site,
        PhaseView::UnknownMethod(connection),
        EventView::Respond,
        Status::MethodNotAllowed,
        connection,
    );
}

/// Any other header that cannot be read is malformed.
/// `law_unreadable_request` says how it is answered.
pub proof fn law_malformed_header(text: Seq<char>)
    requires
        unknown_method(text) is None,
        request_of(text) is Err,
    ensures
        after_header(text) == PhaseView::Received(Err(format_error())),
        !format_error().ends_connection(),
{
    law_header_errors(text, request_of(text)->Err_0);
}

/// A `GET` of a regular file inside of the directory to serve is answered with that file; its
/// size is announced if it is known.
#[verifier::spinoff_prover]
pub proof fn law_file_served(site: Site, request: Request, size: Result<u64, IoError>)
    requires
        request.method is GET,
        is_inside(target(site, request.uri), site.serve_dir),
    ensures
        ({
            let announced = match size {
                Ok(n) => Some(n as usize),
                Err(_) => None,
            };
            run(
                site,
                PhaseView::Received(Ok(request)),
                seq![
                    EventView::Respond,
                    EventView::Opened(true),
                    EventView::Kind(Ok(true)),
                    EventView::Length(size),
                ] + all_sent(4),
            ) == (
                PhaseView::Idle,
                seq![
                    ActionView::OpenFile(target(site, request.uri)),
                    ActionView::CheckKind,
                    ActionView::CheckLength,
                    ActionView::Send(
                        StepView::Write(header_bytes(Status::OK, announced, "text/html"@)),
                    ),
                    ActionView::Send(StepView::Flush),
                    ActionView::Send(StepView::CopyFile),
                    ActionView::Send(StepView::Flush),
                    ActionView::Done(Ok(afterwards(request.connection))),
                ],
            )
        }),
{
    let announced = match size {
        Ok(n) => Some(n as usize),
        Err(_) => None,
    };
    let received = PhaseView::Received(Ok(request));
    let opening = PhaseView::Opening(request.connection);
    let inspecting = PhaseView::Inspecting(request.connection);
    let sizing = PhaseView::Sizing(request.connection);
    let steps = header_steps(Status::OK, announced, "text/html"@).push(StepView::CopyFile).push(
        StepView::Flush,
    );
    let outcome: Outcome = Ok(afterwards(request.connection));
    lemma_answer_sent(site, sizing, EventView::Length(size), steps, outcome);
    let e4 = seq![EventView::Length(size)] + all_sent(4);
    let e3 = seq![EventView::Kind(Ok(true))] + e4;
    let e2 = seq![EventView::Opened(true)] + e3;
    let e1 = seq![EventView::Respond] + e2;
    lemma_run_first(site, inspecting, EventView::Kind(Ok(true)), e4);
    lemma_run_first(site, opening, EventView::Opened(true), e3);
    lemma_run_first(site, received, EventView::Respond, e2);
    assert(e1 =~= seq![
        EventView::Respond,
        EventView::Opened(true),
        EventView::Kind(Ok(true)),
        EventView::Length(size),
    ] + all_sent(4));
    assert(seq![ActionView::OpenFile(target(site, request.uri))] + (seq![ActionView::CheckKind] + (
    seq![ActionView::CheckLength] + sends(steps).push(ActionView::Done(outcome)))) =~= seq![
        ActionView::OpenFile(target(site, request.uri)),
        ActionView::CheckKind,
        ActionView::CheckLength,
        ActionView::Send(StepView::Write(header_bytes(Status::OK, announced, "text/html"@))),
        ActionView::Send(StepView::Flush),
        ActionView::Send(StepView::CopyFile),
        ActionView::Send(StepView::Flush),
        ActionView::Done(outcome),
    ]);
}

/// A `GET` of what cannot be opened is answered with the page for what was not found.
pub proof fn law_missing_file(site: Site, request: Request)
    requires
        request.method is GET,
        is_inside(target(site, request.uri), site.serve_dir),
    ensures
        run(
            site,
            PhaseView::Received(Ok(request)),
            seq![EventView::Respond, EventView::Opened(false)] + all_sent(4),
        ) == (
            PhaseView::Idle,
            seq![ActionView::OpenFile(target(site, request.uri))] + page_actions(
                site,
                Status::NotFound,
                request.connection,
            ),
        ),
{
    let opening = PhaseView::Opening(request.connection);
    let missing = EventView::Opened(false);
    lemma_page_answer_sent(site, opening, missing, Status::NotFound, request.connection);
    lemma_run_first(
        site,
        PhaseView::Received(Ok(request)),
        EventView::Respond,
        seq![missing] + all_sent(4),
    );
    assert(seq![EventView::Respond] + (seq![missing] + all_sent(4)) =~= seq![
        EventView::Respond,
        missing,
    ] + all_sent(4));
}

/// A `GET` of what is no regular file is answered with the page for what was not found.
pub proof fn law_no_regular_file(site: Site, request: Request)
    requires
        request.method is GET,
        is_inside(target(site, request.uri), site.serve_dir),
    ensures
        run(
            site,
            PhaseView::Received(Ok(request)),
            seq![EventView::Respond, EventView::Opened(true), EventView::Kind(Ok(false))]
                + all_sent(4),
        ) == (
            PhaseView::Idle,
            seq![ActionView::OpenFile(target(site, request.uri)), ActionView::CheckKind]
                + page_actions(site, Status::NotFound, request.connection),
        ),
{
    let opening = PhaseView::Opening(request.connection);
    let inspecting = PhaseView::Inspecting(request.connection);
    let other = EventView::Kind(Ok(false));
    let e3 = seq![other] + all_sent(4);
    let e2 = seq![EventView::Opened(true)] + e3;
    lemma_page_answer_sent(site, inspecting, other, Status::NotFound, request.connection);
    lemma_run_first(site, opening, EventView::Opened(true), e3);
    lemma_run_first(site, PhaseView::Received(Ok(request)), EventView::Respond, e2);
    assert(seq![EventView::Respond] + e2 =~= seq![
        EventView::Respond,
        EventView::Opened(true),
        other,
    ] + all_sent(4));
    let page = page_actions(site, Status::NotFound, request.connection);
    assert(seq![ActionView::OpenFile(target(site, request.uri))] + (seq![ActionView::CheckKind]
        + page) =~= seq![
        ActionView::OpenFile(target(site, request.uri)),
        ActionView::CheckKind,
    ] + page);
}

/// A `GET` of what is not inside of the directory to serve opens nothing and is answered with
/// the page for what was not found.
pub proof fn law_outside_not_found(site: Site, request: Request)
    requires
        request.method is GET,
        !is_inside(target(site, request.uri), site.serve_dir),
    ensures
        run(
            site,
            PhaseView::Received(Ok(request)),
            seq![EventView::Respond] + all_sent(4),
        ) == (PhaseView::Idle, page_actions(site, Status::NotFound, request.connection)),
{
    lemma_page_answer_sent(
        site,
        PhaseView::Received(Ok(request)),
        EventView::Respond,
        Status::NotFound,
        request.connection,
    );
}

/// Only files inside of the directory to serve are opened: when both are resolved, the path
/// begins with the directory, and what follows does not lead up.
pub proof fn law_opened_path_is_inside(site: Site, phase: PhaseView, event: EventView)
    requires
        accepts(phase, event),
    ensures
        step(site, phase, event).1 matches ActionView::OpenFile(path) ==> {
            let outer = resolved(components(site.serve_dir));
            let whole = resolved(components(path));
            &&& is_inside(path, site.serve_dir)
            &&& outer.is_prefix_of(whole)
            &&& forall|i: int| outer.len() <= i < whole.len() ==> #[trigger] whole[i] != ".."@
        },
{
}

/// A URI without a second slash right after its first character stands for something inside
/// of the directory to serve if and only if its names, resolved from there, leave the
/// directory as it is and lead nowhere up.  They do if no beginning of them holds more `..`
/// than others.
pub proof fn law_single_slash(site: Site, uri: Seq<char>)
    requires
        uri.len() >= 1,
        uri.len() >= 2 ==> uri[1] != '/',
    ensures
        is_inside(target(site, uri), site.serve_dir) == ({
            let outer = resolved(components(site.serve_dir));
            let whole = resolved(
                components(site.serve_dir) + names(pieces(uri.skip(1), "/"@)),
            );
            &&& outer.is_prefix_of(whole)
            &&& forall|i: int| outer.len() <= i < whole.len() ==> #[trigger] whole[i] != ".."@
        }),
        stays_below(names(pieces(uri.skip(1), "/"@))) ==> is_inside(
            target(site, uri),
            site.serve_dir,
        ),
{
    assert(!is_absolute(uri.skip(1)));
    law_relative_path(site.serve_dir, uri.skip(1));
    if stays_below(names(pieces(uri.skip(1), "/"@))) {
        law_never_above_is_inside(site.serve_dir, uri.skip(1));
    }
}

/// A request that cannot be read is answered with the page for an error of the server, and
/// its error is passed on.
pub proof fn law_unreadable_request(site: Site, e: HandleError)
    requires
        !e.ends_connection(),
    ensures
        ({
            let page = site.pages[Status::InternalServerError];
            run(
                site,
                PhaseView::Received(Err(e)),
                seq![EventView::Respond] + all_sent(4),
            ) == (
                PhaseView::Idle,
                seq![
                    ActionView::Send(
                        StepView::Write(
                            header_bytes(
                                Status::InternalServerError,
                                Some(page.len() as usize),
                                "text/plain"@,
                            ),
                        ),
                    ),
                    ActionView::Send(StepView::Flush),
                    ActionView::Send(StepView::Write(page)),
                    ActionView::Send(StepView::Flush),
                    ActionView::Done(Err(e)),
                ],
            )
        }),
{
    let page = site.pages[Status::InternalServerError];
    let steps = page_steps(site, Status::InternalServerError, "text/plain"@).push(
        StepView::Flush,
    );
    let outcome: Outcome = Err(e);
    lemma_answer_sent(
        site,
        PhaseView::Received(Err(e)),
        EventView::Respond,
        steps,
        outcome,
    );
    assert(sends(steps).push(ActionView::Done(outcome)) =~= seq![
        ActionView::Send(
            StepView::Write(
                header_bytes(
                    Status::InternalServerError,
                    Some(page.len() as usize),
                    "text/plain"@,
                ),
            ),
        ),
        ActionView::Send(StepView::Flush),
        ActionView::Send(StepView::Write(page)),
        ActionView::Send(StepView::Flush),
        ActionView::Done(outcome),
    ]);
}

/// Whether a read says that the connection is over.
pub open spec fn is_end(read: Result<Seq<char>, IoError>) -> bool {
    match read {
        Ok(line) => line.len() == 0,
        Err(e) => e.kind.disconnects(),
    }
}

/// At the end of the connection, however much of a header was read, nothing is sent and the
/// connection is closed.
pub proof fn law_end_of_connection(site: Site, text: Seq<char>, read: Result<Seq<char>, IoError>)
    requires
        is_end(read),
    ensures
        run(
            site,
            PhaseView::Reading(text),
            seq![EventView::Line(read), EventView::Respond],
        ) == (
            PhaseView::Idle,
            seq![ActionView::Respond, ActionView::Done(Ok(HttpHandleStatus::EOF))],
        ),
{
    let reading = PhaseView::Reading(text);
    let eof: Result<Request, HandleError> = Err(HandleError::Internal(InternalError::EOFReached));
    let none = Seq::<EventView>::empty();
    lemma_run_first(site, reading, EventView::Line(read), seq![EventView::Respond]);
    lemma_run_first(site, PhaseView::Received(eof), EventView::Respond, none);
    assert(seq![EventView::Respond] + none =~= seq![EventView::Respond]);
    assert(seq![EventView::Line(read)] + seq![EventView::Respond] =~= seq![
        EventView::Line(read),
        EventView::Respond,
    ]);
    assert(run(site, PhaseView::Idle, none) == (PhaseView::Idle, Seq::<ActionView>::empty()));
    assert(seq![ActionView::Respond] + (seq![
        ActionView::Done(Ok(HttpHandleStatus::EOF)),
    ] + Seq::<ActionView>::empty()) =~= seq![
        ActionView::Respond,
        ActionView::Done(Ok(HttpHandleStatus::EOF)),
    ]);
}

/// The error of any other failed read is kept as it is.
pub proof fn law_other_read_error(site: Site, text: Seq<char>, e: IoError)
    requires
        !e.kind.disconnects(),
    ensures
        step(site, PhaseView::Reading(text), EventView::Line(Err(e))) == (
            PhaseView::Received(Err(HandleError::Io(e))),
            ActionView::Respond,
        ),
        !HandleError::Io(e).ends_connection(),
{
}

/// A failure while the response is sent ends the request: if the peer has gone away it also
/// ends the connection, else it is passed on.
pub proof fn law_failed_step(site: Site, rest: Seq<StepView>, outcome: Outcome, e: IoError)
    ensures
        step(site, PhaseView::Sending(rest, outcome), EventView::Sent(Err(e))) == (
            PhaseView::Idle,
            ActionView::Done(
                if e.kind.disconnects() {
                    Ok(HttpHandleStatus::EOF)
                } else {
                    Err(HandleError::Io(e))
                },
            ),
        ),
{
}

/// Whether, when everything goes well, what is still to be sent after `action` ends in a
/// flush.
pub open spec fn ends_in_flush(phase: PhaseView, action: ActionView) -> bool {
    match (phase, action) {
        (PhaseView::Sending(rest, _), ActionView::Send(current)) => (seq![current] + rest).last()
            == StepView::Flush,
        _ => true,
    }
}

/// What holds of every phase and of the action that led to it.
spec fn is_orderly(phase: PhaseView, action: ActionView) -> bool {
    &&& ends_in_flush(phase, action)
    &&& phase is Sending ==> action is Send
    &&& match phase {
        PhaseView::Received(Err(e)) => e == HandleError::Internal(InternalError::EOFReached)
            || !e.ends_connection(),
        PhaseView::Sending(_, Err(e)) => !e.ends_connection(),
        _ => true,
    }
}

#[verifier::spinoff_prover]
proof fn lemma_stays_orderly(site: Site, phase: PhaseView, action: ActionView, event: EventView)
    requires
        accepts(phase, event),
        is_orderly(phase, action),
    ensures
        ({
            let (next, following) = step(site, phase, event);
            &&& is_orderly(next, following)
            &&& event == EventView::Sent(Ok(())) && following is Done ==> action
                == ActionView::Send(StepView::Flush)
        }),
{
    if let (PhaseView::Sending(rest, outcome), ActionView::Send(current)) = (phase, action) {
        let all = seq![current] + rest;
        if rest.len() == 0 {
            assert(all.last() == current);
        } else {
            assert(seq![rest[0]] + rest.skip(1) == rest);
            assert(all.last() == rest.last());
        }
    }
    if let (PhaseView::Reading(text), EventView::Line(Ok(line))) = (phase, event) {
        if let Err(e) = request_of(text + line) {
            law_header_errors(text + line, e);
        }
    }
    let (next, following) = step(site, phase, event);
    if let (PhaseView::Sending(..), ActionView::Send(_)) = (next, following) {
        if let (PhaseView::Received(Ok(request)), EventView::Respond) = (phase, event) {
            assert(answer(site, Ok(request)) == (next, following));
        }
    }
}

/// Whether each event is accepted when it comes.
pub open spec fn all_accepted(site: Site, phase: PhaseView, events: Seq<EventView>) -> bool
    decreases events.len(),
{
    events.len() == 0 || {
        &&& all_accepted(site, phase, events.drop_last())
        &&& accepts(run(site, phase, events.drop_last()).0, events.last())
    }
}

proof fn lemma_run_is_orderly(site: Site, events: Seq<EventView>)
    requires
        events.len() > 0,
        all_accepted(site, PhaseView::Idle, events),
    ensures
        ({
            let (phase, actions) = run(site, PhaseView::Idle, events);
            &&& actions.len() == events.len()
            &&& is_orderly(phase, actions.last())
        }),
    decreases events.len(),
{
    let before = events.drop_last();
    let (phase, actions) = run(site, PhaseView::Idle, before);
    if before.len() == 0 {
        assert(actions == Seq::<ActionView>::empty());
        lemma_stays_orderly(site, phase, ActionView::ReadLine, events.last());
    } else {
        lemma_run_is_orderly(site, before);
        lemma_stays_orderly(site, phase, actions.last(), events.last());
    }
}

/// On every connection, whenever a request ends with its response sent, be it in an error or
/// not, the last thing done was a flush: what a client is sent reaches it.
pub proof fn law_response_flushed(site: Site, events: Seq<EventView>)
    requires
        events.len() >= 2,
        all_accepted(site, PhaseView::Idle, events),
        events.last() == EventView::Sent(Ok(())),
        run(site, PhaseView::Idle, events).1.last() is Done,
    ensures
        run(site, PhaseView::Idle, events).1[events.len() - 2] == ActionView::Send(
            StepView::Flush,
        ),
{
    let before = events.drop_last();
    lemma_run_is_orderly(site, before);
    let (phase, actions) = run(site, PhaseView::Idle, before);
    lemma_stays_orderly(site, phase, actions.last(), events.last());
}

/// The end of a connection is never reported as an error.
#[verifier::spinoff_prover]
pub proof fn law_end_is_no_error(site: Site, phase: PhaseView, event: EventView)
    requires
        accepts(phase, event),
    ensures
        step(site, phase, event).1 matches ActionView::Done(Err(e)) ==> !e.ends_connection(),
{
}

/// A run goes on where an earlier one ended.
pub proof fn law_runs_follow_each_other(
    site: Site,
    phase: PhaseView,
    first: Seq<EventView>,
    last: Seq<EventView>,
)
    ensures
        run(site, phase, first + last) == ({
            let (between, actions) = run(site, phase, first);
            let (end, more) = run(site, between, last);
            (end, actions + more)
        }),
    decreases last.len(),
{
    let (between, actions) = run(site, phase, first);
    if last.len() == 0 {
        assert(first + last == first);
        assert(run(site, between, last) == (between, Seq::<ActionView>::empty()));
        assert(actions + Seq::<ActionView>::empty() == actions);
    } else {
        law_runs_follow_each_other(site, phase, first, last.drop_last());
        assert((first + last).drop_last() == first + last.drop_last());
        let (near, more) = run(site, between, last.drop_last());
        let (end, action) = step(site, near, last.last());
        assert((actions + more).push(action) == actions + more.push(action));
    }
}

} // verus!
