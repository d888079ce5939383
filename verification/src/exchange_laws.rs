//! What a client is sent.

use vstd::prelude::*;
use vstd::utf8::{encode_utf8, encode_utf8_decode_utf8};

use crate::context::{pages_fit, Site};
use crate::error::{HandleError, InternalError};
use crate::handler::{
    accepts, after_header, afterwards, concluded, ends_header, header_steps, page_steps,
    plain_step, sending, step, target, ActionView, EventView, Outcome, PhaseView, StepView,
};
use crate::handler_laws::{
    all_sent, law_file_served, law_runs_follow_each_other, lemma_answer_sent, lemma_run_first, run,
    sends,
};
use crate::path::is_inside;
use crate::request::{request_of, unknown_method, Request};
use crate::request_laws::{
    has_field, law_header_errors, law_unknown_method_is_malformed, lemma_free_without_first,
};
use crate::response::{header_bytes, header_text};
use crate::response_laws::law_length_line;
use crate::status::Status;
use crate::stream_laws::{
    body_left, cut, is_header, law_cut, law_header_read_by_lines, law_header_taken, left_after,
    left_of, lemma_pieces_of_header, lemma_reading, line_end, read_lines, reads, to_copy, without,
};
use crate::text::{decimal, is_free_of, pieces};

verus! {

/// What a path leads to.
pub enum Entry {
    /// A regular file with these contents.
    File(Seq<u8>),
    /// Something else that can be opened, such as a directory.
    Other,
}

/// What surrounds a connection: what can be opened, by path, what the client still sends,
/// and what is open.
#[verifier::ext_equal]
pub struct World {
    pub files: Map<Seq<char>, Entry>,
    pub stream: Seq<u8>,
    pub open: Option<Entry>,
}

/// The first bytes of the stream, as many as asked for or as there are.
pub open spec fn first(stream: Seq<u8>, size: u64) -> Seq<u8> {
    stream.take(
        if size <= stream.len() {
            size as int
        } else {
            stream.len() as int
        },
    )
}

impl World {
    /// The surroundings while nothing is open.
    pub open spec fn at(files: Map<Seq<char>, Entry>, stream: Seq<u8>) -> World {
        World { files, stream, open: None }
    }

    /// The contents of the open file.
    pub open spec fn contents(self) -> Seq<u8> {
        match self.open {
            Some(Entry::File(contents)) => contents,
            _ => Seq::empty(),
        }
    }

    /// The bytes that an action sends.
    pub open spec fn sent_by(self, action: ActionView) -> Seq<u8> {
        match action {
            ActionView::Send(StepView::Write(bytes)) => bytes,
            ActionView::Send(StepView::CopyBody(size)) => first(self.stream, size),
            ActionView::Send(StepView::CopyFile) => self.contents(),
            _ => Seq::empty(),
        }
    }

    /// The surroundings after an action was done.
    pub open spec fn after(self, action: ActionView) -> World {
        World {
            files: self.files,
            stream: left_after(self.stream, action),
            open: match action {
                ActionView::OpenFile(path) => if self.files.contains_key(path) {
                    Some(self.files[path])
                } else {
                    None
                },
                ActionView::Done(_) => None,
                _ => self.open,
            },
        }
    }

    /// Whether the event tells what comes of the action.  Nothing fails; after a request is
    /// handled the next one begins.
    pub open spec fn tells(self, action: ActionView, event: EventView) -> bool {
        match action {
            ActionView::ReadLine => event matches EventView::Line(Ok(line)) && encode_utf8(line)
                == self.stream.take(line_end(self.stream, 10u8)),
            ActionView::Respond => event == EventView::Respond,
            ActionView::OpenFile(path) => event == EventView::Opened(
                self.files.contains_key(path),
            ),
            ActionView::CheckKind => event matches EventView::Kind(Ok(is_file)) && is_file == (
            self.open matches Some(Entry::File(_))),
            ActionView::CheckLength => event matches EventView::Length(Ok(size)) && size
                == self.contents().len(),
            ActionView::Send(_) => event == EventView::Sent(Ok(())),
            ActionView::Done(_) => event == EventView::Begin,
        }
    }
}

/// The surroundings after the given actions were done, one after the other.
pub open spec fn after_all(world: World, actions: Seq<ActionView>) -> World
    decreases actions.len(),
{
    if actions.len() == 0 {
        world
    } else {
        after_all(world.after(actions[0]), actions.skip(1))
    }
}

/// The bytes that the given actions send, one after the other.
pub open spec fn sent(world: World, actions: Seq<ActionView>) -> Seq<u8>
    decreases actions.len(),
{
    if actions.len() == 0 {
        Seq::empty()
    } else {
        world.sent_by(actions[0]) + sent(world.after(actions[0]), actions.skip(1))
    }
}

/// Whether the events are what happens when `action` is done in the given phase, and then
/// each action that follows.
pub open spec fn happens(
    site: Site,
    world: World,
    phase: PhaseView,
    action: ActionView,
    events: Seq<EventView>,
) -> bool
    decreases events.len(),
{
    events.len() == 0 || {
        let (next, following) = step(site, phase, events[0]);
        &&& accepts(phase, events[0])
        &&& world.tells(action, events[0])
        &&& happens(site, world.after(action), next, following, events.skip(1))
    }
}

/// The actions of handling the given events, beginning with a new request.
pub open spec fn actions_of(site: Site, events: Seq<EventView>) -> Seq<ActionView> {
    run(site, PhaseView::Idle, events).1
}

/// Whether the events are what happens while one request is handled, from its beginning to
/// its end.
pub open spec fn handled(site: Site, world: World, events: Seq<EventView>) -> bool {
    &&& events.len() > 0
    &&& events[0] == EventView::Begin
    &&& forall|i: int| 0 < i < events.len() ==> !(#[trigger] events[i] is Begin)
    &&& happens(
        site,
        world,
        PhaseView::Reading(Seq::empty()),
        ActionView::ReadLine,
        events.skip(1),
    )
    &&& actions_of(site, events).last() is Done
}

proof fn lemma_first_action(world: World, action: ActionView, actions: Seq<ActionView>)
    ensures
        sent(world, seq![action] + actions) == world.sent_by(action) + sent(
            world.after(action),
            actions,
        ),
        after_all(world, seq![action] + actions) == after_all(world.after(action), actions),
{
    assert((seq![action] + actions).skip(1) == actions);
    assert((seq![action] + actions)[0] == action);
}

/// Later actions send what they send in the surroundings that earlier ones leave.
pub proof fn law_sent_in_order(world: World, before: Seq<ActionView>, after: Seq<ActionView>)
    ensures
        sent(world, before + after) == sent(world, before) + sent(
            after_all(world, before),
            after,
        ),
        after_all(world, before + after) == after_all(after_all(world, before), after),
    decreases before.len(),
{
    if before.len() == 0 {
        assert(before + after == after);
        assert(Seq::<u8>::empty() + sent(world, after) == sent(world, after));
    } else {
        let rest = before.skip(1);
        let next = world.after(before[0]);
        law_sent_in_order(next, rest, after);
        assert((before + after).skip(1) == rest + after);
        assert((before + after)[0] == before[0]);
        let head = world.sent_by(before[0]);
        let more = sent(after_all(next, rest), after);
        assert(head + (sent(next, rest) + more) == head + sent(next, rest) + more);
    }
}

/// There is one thing that comes of an action.
proof fn lemma_tells_one(world: World, action: ActionView, one: EventView, other: EventView)
    requires
        world.tells(action, one),
        world.tells(action, other),
    ensures
        one == other,
{
    if let (EventView::Line(Ok(a)), EventView::Line(Ok(b))) = (one, other) {
        encode_utf8_decode_utf8(a);
        encode_utf8_decode_utf8(b);
    }
}

/// What happens first does not depend on how far it is followed.
proof fn lemma_happens_one_way(
    site: Site,
    world: World,
    phase: PhaseView,
    action: ActionView,
    short: Seq<EventView>,
    long: Seq<EventView>,
)
    requires
        happens(site, world, phase, action, short),
        happens(site, world, phase, action, long),
        short.len() <= long.len(),
    ensures
        long.take(short.len() as int) == short,
    decreases short.len(),
{
    if short.len() > 0 {
        lemma_tells_one(world, action, short[0], long[0]);
        let (next, following) = step(site, phase, short[0]);
        lemma_happens_one_way(
            site,
            world.after(action),
            next,
            following,
            short.skip(1),
            long.skip(1),
        );
        assert forall|i: int| 0 <= i < short.len() implies long[i] == short[i] by {
            if i > 0 {
                assert(long.skip(1).take(short.len() - 1)[i - 1] == long[i]);
                assert(short.skip(1)[i - 1] == short[i]);
            }
        }
    }
}

/// What happens later begins where what happened before ends.
proof fn lemma_happens_split(
    site: Site,
    world: World,
    phase: PhaseView,
    action: ActionView,
    before: Seq<EventView>,
    after: Seq<EventView>,
)
    ensures
        ({
            let (between, actions) = run(site, phase, before);
            let done = seq![action] + actions;
            happens(site, world, phase, action, before + after) == (happens(
                site,
                world,
                phase,
                action,
                before,
            ) && happens(
                site,
                after_all(world, done.drop_last()),
                between,
                done.last(),
                after,
            ))
        }),
    decreases before.len(),
{
    let (between, actions) = run(site, phase, before);
    let done = seq![action] + actions;
    if before.len() == 0 {
        assert(before + after == after);
        assert(actions == Seq::<ActionView>::empty());
        assert(done.drop_last() == Seq::<ActionView>::empty());
        assert(done.last() == action);
    } else {
        let rest = before.skip(1);
        let (next, following) = step(site, phase, before[0]);
        assert(seq![before[0]] + rest == before);
        lemma_run_first(site, phase, before[0], rest);
        lemma_happens_split(site, world.after(action), next, following, rest, after);
        let more = run(site, next, rest).1;
        let tail = seq![following] + more;
        assert(actions == tail);
        assert((before + after).skip(1) == rest + after);
        assert((before + after)[0] == before[0]);
        assert(done.last() == tail.last());
        assert(done.drop_last() == seq![action] + tail.drop_last());
        lemma_first_action(world, action, tail.drop_last());
    }
}

/// The first action of a request is to read a line.
proof fn lemma_begins_with_reading(site: Site, events: Seq<EventView>)
    ensures
        run(site, PhaseView::Idle, seq![EventView::Begin] + events) == ({
            let (end, actions) = run(site, PhaseView::Reading(Seq::empty()), events);
            (end, seq![ActionView::ReadLine] + actions)
        }),
{
    lemma_run_first(site, PhaseView::Idle, EventView::Begin, events);
}

/// After the end of a request nothing but the next one can happen.
#[verifier::spinoff_prover]
proof fn lemma_no_longer(site: Site, world: World, one: Seq<EventView>, other: Seq<EventView>)
    requires
        handled(site, world, one),
        handled(site, world, other),
    ensures
        one.len() >= other.len(),
{
    let reading = PhaseView::Reading(Seq::empty());
    let short = one.skip(1);
    let long = other.skip(1);
    if short.len() < long.len() {
        lemma_happens_one_way(site, world, reading, ActionView::ReadLine, short, long);
        let rest = long.skip(short.len() as int);
        assert(short + rest == long);
        lemma_happens_split(site, world, reading, ActionView::ReadLine, short, rest);
        assert(seq![EventView::Begin] + short == one);
        lemma_begins_with_reading(site, short);
        let (between, actions) = run(site, reading, short);
        let done = seq![ActionView::ReadLine] + actions;
        assert(done == actions_of(site, one));
        let left = after_all(world, done.drop_last());
        assert(happens(site, left, between, done.last(), rest));
        assert(left.tells(done.last(), rest[0]));
        assert(rest[0] == other[one.len() as int]);
        assert(!(other[one.len() as int] is Begin));
    }
}

/// A request is handled in one way: what happens, and with it what is sent, follows from the
/// site and the surroundings.
pub proof fn law_handled_one_way(
    site: Site,
    world: World,
    one: Seq<EventView>,
    other: Seq<EventView>,
)
    requires
        handled(site, world, one),
        handled(site, world, other),
    ensures
        one == other,
{
    lemma_no_longer(site, world, one, other);
    lemma_no_longer(site, world, other, one);
    lemma_happens_one_way(
        site,
        world,
        PhaseView::Reading(Seq::empty()),
        ActionView::ReadLine,
        one.skip(1),
        other.skip(1),
    );
    assert(one == seq![EventView::Begin] + one.skip(1));
    assert(other == seq![EventView::Begin] + other.skip(1));
    assert(other.skip(1).take(one.len() - 1) == other.skip(1));
}

/// Reading lines takes them from the stream, and does nothing else.
proof fn lemma_lines_only_taken(world: World, n: nat)
    ensures
        after_all(world, read_lines(n)) == (World {
            stream: left_of(world.stream, read_lines(n)),
            ..world
        }),
        sent(world, read_lines(n)) == Seq::<u8>::empty(),
    decreases n,
{
    if n > 0 {
        let before = read_lines((n - 1) as nat);
        let last = seq![ActionView::ReadLine];
        lemma_lines_only_taken(world, (n - 1) as nat);
        assert(read_lines(n) =~= before + last);
        assert(read_lines(n).drop_last() =~= before);
        law_sent_in_order(world, before, last);
        let none = Seq::<ActionView>::empty();
        assert(last == last + none);
        lemma_first_action(after_all(world, before), ActionView::ReadLine, none);
        assert(Seq::<u8>::empty() + Seq::<u8>::empty() == Seq::<u8>::empty());
    }
}

/// The lines of a header are read one after the other.
proof fn lemma_header_happens(
    site: Site,
    files: Map<Seq<char>, Entry>,
    header: Seq<char>,
    rest: Seq<u8>,
    k: int,
)
    requires
        is_header(header),
        0 <= k <= cut(header).len(),
    ensures
        happens(
            site,
            World::at(files, encode_utf8(header) + rest),
            PhaseView::Reading(Seq::empty()),
            ActionView::ReadLine,
            reads(cut(header).take(k)),
        ),
    decreases k,
{
    if k > 0 {
        let world = World::at(files, encode_utf8(header) + rest);
        let reading = PhaseView::Reading(Seq::empty());
        let lines = cut(header);
        let some = lines.take(k - 1);
        let before = reads(some);
        let after = seq![EventView::Line(Ok(lines[k - 1]))];
        law_cut(header);
        law_header_taken(header, rest);
        lemma_pieces_of_header(header, lines);
        assert forall|j: int| 0 <= j <= some.len() implies !ends_header(
            #[trigger] some.take(j).flatten(),
        ) by {
            assert(some.take(j) == lines.take(j));
        }
        lemma_header_happens(site, files, header, rest, k - 1);
        lemma_reading(site, some);
        lemma_begins_with_reading(site, before);
        lemma_happens_split(site, world, reading, ActionView::ReadLine, before, after);
        lemma_lines_only_taken(world, (k - 1) as nat);
        let (between, actions) = run(site, reading, before);
        let done = seq![ActionView::ReadLine] + actions;
        assert(done == read_lines(k as nat));
        assert(done.drop_last() =~= read_lines((k - 1) as nat));
        reveal_with_fuel(happens, 2);
        assert(before + after =~= reads(lines.take(k)));
    }
}

/// A response: its header and its body.
pub struct Response {
    pub status: Status,
    pub content_length: Option<usize>,
    pub content_type: Seq<char>,
    pub body: Seq<u8>,
}

impl Response {
    /// The response as it is sent.
    pub open spec fn bytes(self) -> Seq<u8> {
        header_bytes(self.status, self.content_length, self.content_type) + self.body
    }
}

/// The response that consists of the page for a status.
pub open spec fn page_response(site: Site, status: Status, content_type: Seq<char>) -> Response {
    Response {
        status,
        content_length: Some(site.pages[status].len() as usize),
        content_type,
        body: site.pages[status],
    }
}

/// Whether the request asks for its body to be sent back.
pub open spec fn is_echo(request: Request) -> bool {
    request.uri == "/echo"@ && request.method is POST
}

/// The response to a header that was read, where `rest` follows it in the stream.
pub open spec fn response(
    site: Site,
    files: Map<Seq<char>, Entry>,
    header: Seq<char>,
    rest: Seq<u8>,
) -> Response {
    match after_header(header) {
        PhaseView::Received(Ok(request)) => {
            let path = target(site, request.uri);
            if is_echo(request) {
                Response {
                    status: Status::OK,
                    content_length: None,
                    content_type: "text/plain"@,
                    body: match request.content_length {
                        Some(size) => first(rest, size as u64),
                        None => Seq::empty(),
                    },
                }
            } else if request.method is POST {
                page_response(site, Status::MethodNotAllowed, "text/html"@)
            } else if is_inside(path, site.serve_dir) && files.contains_key(path)
                && files[path] is File {
                Response {
                    status: Status::OK,
                    content_length: Some(files[path]->File_0.len() as usize),
                    content_type: "text/html"@,
                    body: files[path]->File_0,
                }
            } else {
                page_response(site, Status::NotFound, "text/html"@)
            }
        },
        PhaseView::Received(Err(_)) => page_response(
            site,
            Status::InternalServerError,
            "text/plain"@,
        ),
        _ => page_response(site, Status::MethodNotAllowed, "text/html"@),
    }
}

/// How the handling of a header that was read ends.
pub open spec fn ending(header: Seq<char>) -> Outcome {
    match after_header(header) {
        PhaseView::Received(Ok(request)) => if is_echo(request)
            && request.content_length is None {
            Err(HandleError::Internal(InternalError::RequiredHeaderField))
        } else {
            Ok(afterwards(request.connection))
        },
        PhaseView::Received(Err(e)) => Err(e),
        PhaseView::UnknownMethod(connection) => Ok(afterwards(connection)),
        _ => arbitrary(),
    }
}

/// What happens once a header is read.
pub open spec fn answer_events(site: Site, files: Map<Seq<char>, Entry>, header: Seq<char>) -> Seq<
    EventView,
> {
    let plain = seq![EventView::Respond] + all_sent(4);
    match after_header(header) {
        PhaseView::Received(Ok(request)) => {
            let path = target(site, request.uri);
            if is_echo(request) && request.content_length is None {
                seq![EventView::Respond] + all_sent(2)
            } else if request.method is GET && is_inside(path, site.serve_dir) {
                if !files.contains_key(path) {
                    seq![EventView::Respond, EventView::Opened(false)] + all_sent(4)
                } else {
                    match files[path] {
                        Entry::File(contents) => seq![
                            EventView::Respond,
                            EventView::Opened(true),
                            EventView::Kind(Ok(true)),
                            EventView::Length(Ok(contents.len() as u64)),
                        ] + all_sent(4),
                        Entry::Other => seq![
                            EventView::Respond,
                            EventView::Opened(true),
                            EventView::Kind(Ok(false)),
                        ] + all_sent(4),
                    }
                }
            } else {
                plain
            }
        },
        _ => plain,
    }
}

/// What happens while the request with the given header is handled.
pub open spec fn request_events(
    site: Site,
    files: Map<Seq<char>, Entry>,
    header: Seq<char>,
) -> Seq<EventView> {
    seq![EventView::Begin] + reads(cut(header)) + answer_events(site, files, header)
}

/// Whether the size of every file can be told.
pub open spec fn sizes_fit(files: Map<Seq<char>, Entry>) -> bool {
    forall|path: Seq<char>|
        files.contains_key(path) ==> (#[trigger] files[path] matches Entry::File(contents)
            ==> contents.len() <= u64::MAX)
}

/// Steps that are still to be made are made.
proof fn lemma_sending_happens(
    site: Site,
    world: World,
    step_made: StepView,
    rest: Seq<StepView>,
    outcome: Outcome,
)
    ensures
        happens(
            site,
            world,
            PhaseView::Sending(rest, outcome),
            ActionView::Send(step_made),
            all_sent(rest.len() + 1),
        ),
    decreases rest.len(),
{
    let events = all_sent(rest.len() + 1);
    let next = world.after(ActionView::Send(step_made));
    assert(events.skip(1) =~= all_sent(rest.len()));
    if rest.len() > 0 {
        assert(rest.skip(1).len() + 1 == rest.len());
        lemma_sending_happens(site, next, rest[0], rest.skip(1), outcome);
    } else {
        reveal_with_fuel(happens, 2);
    }
}

/// An answer that consists of the given steps is sent.
proof fn lemma_answer_happens(
    site: Site,
    world: World,
    phase: PhaseView,
    action: ActionView,
    event: EventView,
    steps: Seq<StepView>,
    outcome: Outcome,
)
    requires
        accepts(phase, event),
        world.tells(action, event),
        plain_step(site, phase, event) == sending(steps, outcome),
        steps.len() > 0,
    ensures
        happens(site, world, phase, action, seq![event] + all_sent(steps.len())),
{
    let events = seq![event] + all_sent(steps.len());
    assert(events.skip(1) =~= all_sent(steps.len()));
    lemma_sending_happens(site, world.after(action), steps[0], steps.skip(1), outcome);
}

/// One more event in front.
proof fn lemma_happens_first(
    site: Site,
    world: World,
    phase: PhaseView,
    action: ActionView,
    event: EventView,
    events: Seq<EventView>,
)
    requires
        accepts(phase, event),
        world.tells(action, event),
        ({
            let (next, following) = step(site, phase, event);
            happens(site, world.after(action), next, following, events)
        }),
    ensures
        happens(site, world, phase, action, seq![event] + events),
{
    assert((seq![event] + events).skip(1) == events);
}

/// A header, a flush, one more step and a flush.
proof fn lemma_response_sent(world: World, header: Seq<u8>, body: StepView, outcome: Outcome)
    ensures
        ({
            let last = ActionView::Send(body);
            let actions = seq![
                ActionView::Send(StepView::Write(header)),
                ActionView::Send(StepView::Flush),
                last,
                ActionView::Send(StepView::Flush),
                ActionView::Done(outcome),
            ];
            &&& sent(world, actions) == header + world.sent_by(last)
            &&& after_all(world, actions) == World::at(
                world.files,
                left_after(world.stream, last),
            )
        }),
{
    let none = Seq::<ActionView>::empty();
    let write = ActionView::Send(StepView::Write(header));
    let flush = ActionView::Send(StepView::Flush);
    let last = ActionView::Send(body);
    let done = ActionView::Done(outcome);
    let next = world.after(last);
    let a4 = seq![done] + none;
    let a3 = seq![flush] + a4;
    let a2 = seq![last] + a3;
    let a1 = seq![flush] + a2;
    lemma_first_action(next, done, none);
    lemma_first_action(next, flush, a4);
    lemma_first_action(world, last, a3);
    lemma_first_action(world, flush, a2);
    lemma_first_action(world, write, a1);
    assert(seq![write] + a1 =~= seq![write, flush, last, flush, done]);
    let nothing = Seq::<u8>::empty();
    assert(sent(next, a3) =~= nothing);
    assert(world.sent_by(last) + nothing =~= world.sent_by(last));
    assert(nothing + world.sent_by(last) =~= world.sent_by(last));
}

/// What holds of a header that was answered, where `rest` follows it in the stream: what
/// happened, what was sent, how it ended and what is left.
spec fn is_answered(
    site: Site,
    world: World,
    phase: PhaseView,
    action: ActionView,
    events: Seq<EventView>,
    bytes: Seq<u8>,
    left: Seq<u8>,
    outcome: Outcome,
) -> bool {
    let (end, actions) = run(site, phase, events);
    &&& happens(site, world, phase, action, events)
    &&& forall|i: int| 0 <= i < events.len() ==> !(#[trigger] events[i] is Begin)
    &&& end == PhaseView::Idle
    &&& actions.len() == events.len()
    &&& actions.len() > 0
    &&& actions.last() == ActionView::Done(outcome)
    &&& sent(world.after(action), actions) == bytes
    &&& after_all(world.after(action), actions) == World::at(world.files, left)
}

/// An answer of a header, a flush, one more step and a flush.
proof fn lemma_four_steps(
    site: Site,
    world: World,
    phase: PhaseView,
    action: ActionView,
    event: EventView,
    header: Seq<u8>,
    body: StepView,
    outcome: Outcome,
)
    requires
        accepts(phase, event),
        world.tells(action, event),
        !(event is Begin),
        plain_step(site, phase, event) == sending(
            seq![StepView::Write(header), StepView::Flush, body, StepView::Flush],
            outcome,
        ),
    ensures
        is_answered(
            site,
            world,
            phase,
            action,
            seq![event] + all_sent(4),
            header + world.after(action).sent_by(ActionView::Send(body)),
            left_after(world.after(action).stream, ActionView::Send(body)),
            concluded(outcome),
        ),
{
    let steps = seq![StepView::Write(header), StepView::Flush, body, StepView::Flush];
    let next = world.after(action);
    lemma_answer_happens(site, world, phase, action, event, steps, outcome);
    lemma_answer_sent(site, phase, event, steps, outcome);
    lemma_response_sent(next, header, body, concluded(outcome));
    assert(sends(steps).push(ActionView::Done(concluded(outcome))) =~= seq![
        ActionView::Send(StepView::Write(header)),
        ActionView::Send(StepView::Flush),
        ActionView::Send(body),
        ActionView::Send(StepView::Flush),
        ActionView::Done(concluded(outcome)),
    ]);
}

/// One more event in front, whose action neither sends nor takes anything.
proof fn lemma_answered_later(
    site: Site,
    world: World,
    phase: PhaseView,
    action: ActionView,
    event: EventView,
    events: Seq<EventView>,
    bytes: Seq<u8>,
    left: Seq<u8>,
    outcome: Outcome,
)
    requires
        accepts(phase, event),
        world.tells(action, event),
        !(event is Begin),
        ({
            let (next, following) = step(site, phase, event);
            &&& is_answered(
                site,
                world.after(action),
                next,
                following,
                events,
                bytes,
                left,
                outcome,
            )
            &&& world.after(action).sent_by(following) == Seq::<u8>::empty()
        }),
    ensures
        is_answered(
            site,
            world,
            phase,
            action,
            seq![event] + events,
            bytes,
            left,
            outcome,
        ),
{
    let all = seq![event] + events;
    let (next, following) = step(site, phase, event);
    let actions = run(site, next, events).1;
    lemma_happens_first(site, world, phase, action, event, events);
    lemma_run_first(site, phase, event, events);
    lemma_first_action(world.after(action), following, actions);
    assert(Seq::<u8>::empty() + bytes == bytes);
    assert forall|i: int| 0 <= i < all.len() implies !(#[trigger] all[i] is Begin) by {
        if i > 0 {
            assert(all[i] == events[i - 1]);
        }
    }
    assert((seq![following] + actions).last() == actions.last());
}

/// The page for a status is answered.
proof fn lemma_page_answered(
    site: Site,
    world: World,
    phase: PhaseView,
    action: ActionView,
    event: EventView,
    status: Status,
    content_type: Seq<char>,
    outcome: Outcome,
)
    requires
        accepts(phase, event),
        world.tells(action, event),
        !(event is Begin),
        plain_step(site, phase, event) == sending(
            page_steps(site, status, content_type).push(StepView::Flush),
            outcome,
        ),
    ensures
        is_answered(
            site,
            world,
            phase,
            action,
            seq![event] + all_sent(4),
            page_response(site, status, content_type).bytes(),
            left_after(world.stream, action),
            concluded(outcome),
        ),
{
    let page = site.pages[status];
    let header = header_bytes(status, Some(page.len() as usize), content_type);
    assert(page_steps(site, status, content_type).push(StepView::Flush) =~= seq![
        StepView::Write(header),
        StepView::Flush,
        StepView::Write(page),
        StepView::Flush,
    ]);
    lemma_four_steps(
        site,
        world,
        phase,
        action,
        event,
        header,
        StepView::Write(page),
        outcome,
    );
}

/// A `POST` of `/echo` without an announced size is answered.
proof fn lemma_bare_echo_answered(site: Site, world: World, request: Request)
    requires
        is_echo(request),
        request.content_length is None,
        world.open is None,
    ensures
        is_answered(
            site,
            world,
            PhaseView::Received(Ok(request)),
            ActionView::Respond,
            seq![EventView::Respond] + all_sent(2),
            header_bytes(Status::OK, None, "text/plain"@),
            world.stream,
            Err(HandleError::Internal(InternalError::RequiredHeaderField)),
        ),
{
    let phase = PhaseView::Received(Ok(request));
    let steps = header_steps(Status::OK, None, "text/plain"@);
    let outcome: Outcome = Err(HandleError::Internal(InternalError::RequiredHeaderField));
    let header = header_bytes(Status::OK, None, "text/plain"@);
    lemma_answer_happens(
        site,
        world,
        phase,
        ActionView::Respond,
        EventView::Respond,
        steps,
        outcome,
    );
    lemma_answer_sent(site, phase, EventView::Respond, steps, outcome);
    let none = Seq::<ActionView>::empty();
    let write = ActionView::Send(StepView::Write(header));
    let flush = ActionView::Send(StepView::Flush);
    let done = ActionView::Done(outcome);
    let a2 = seq![done] + none;
    let a1 = seq![flush] + a2;
    lemma_first_action(world, done, none);
    lemma_first_action(world, flush, a2);
    lemma_first_action(world, write, a1);
    assert(seq![write] + a1 =~= sends(steps).push(done));
    let nothing = Seq::<u8>::empty();
    assert(sent(world, a1) =~= nothing);
    assert(header + nothing =~= header);
}

/// A `GET` is answered.
proof fn lemma_get_answered(
    site: Site,
    files: Map<Seq<char>, Entry>,
    header: Seq<char>,
    rest: Seq<u8>,
)
    requires
        accepts(after_header(header), EventView::Respond),
        sizes_fit(files),
        after_header(header) matches PhaseView::Received(Ok(request)) && request.method is GET,
    ensures
        is_answered(
            site,
            World::at(files, rest),
            after_header(header),
            ActionView::Respond,
            answer_events(site, files, header),
            response(site, files, header, rest).bytes(),
            rest,
            ending(header),
        ),
{
    let world = World::at(files, rest);
    let phase = after_header(header);
    let request = phase->Received_0->Ok_0;
    let path = target(site, request.uri);
    let outcome: Outcome = Ok(afterwards(request.connection));
    let page = page_response(site, Status::NotFound, "text/html"@).bytes();
    let html = "text/html"@;
    if !is_inside(path, site.serve_dir) {
        lemma_page_answered(
            site,
            world,
            phase,
            ActionView::Respond,
            EventView::Respond,
            Status::NotFound,
            html,
            outcome,
        );
    } else {
        let open = ActionView::OpenFile(path);
        let opening = PhaseView::Opening(request.connection);
        let after = world.after(open);
        if !files.contains_key(path) {
            let e1 = seq![EventView::Opened(false)] + all_sent(4);
            lemma_page_answered(
                site,
                world,
                opening,
                open,
                EventView::Opened(false),
                Status::NotFound,
                html,
                outcome,
            );
            lemma_answered_later(
                site,
                world,
                phase,
                ActionView::Respond,
                EventView::Respond,
                e1,
                page,
                rest,
                outcome,
            );
            assert(seq![EventView::Respond] + e1 =~= answer_events(site, files, header));
        } else {
            let inspecting = PhaseView::Inspecting(request.connection);
            match files[path] {
                Entry::Other => {
                    let e2 = seq![EventView::Kind(Ok(false))] + all_sent(4);
                    let e1 = seq![EventView::Opened(true)] + e2;
                    lemma_page_answered(
                        site,
                        after,
                        inspecting,
                        ActionView::CheckKind,
                        EventView::Kind(Ok(false)),
                        Status::NotFound,
                        html,
                        outcome,
                    );
                    lemma_answered_later(
                        site,
                        world,
                        opening,
                        open,
                        EventView::Opened(true),
                        e2,
                        page,
                        rest,
                        outcome,
                    );
                    lemma_answered_later(
                        site,
                        world,
                        phase,
                        ActionView::Respond,
                        EventView::Respond,
                        e1,
                        page,
                        rest,
                        outcome,
                    );
                    assert(seq![EventView::Respond] + e1 =~= answer_events(site, files, header));
                },
                Entry::File(contents) => {
                    lemma_file_answered(site, files, rest, request, contents);
                    assert(seq![EventView::Respond] + (seq![EventView::Opened(true)] + (seq![
                        EventView::Kind(Ok(true)),
                    ] + (seq![EventView::Length(Ok(contents.len() as u64))] + all_sent(4))))
                        =~= answer_events(site, files, header));
                },
            }
        }
    }
}

/// A `GET` of a regular file is answered.
proof fn lemma_file_answered(
    site: Site,
    files: Map<Seq<char>, Entry>,
    rest: Seq<u8>,
    request: Request,
    contents: Seq<u8>,
)
    requires
        request.method is GET,
        accepts(PhaseView::Received(Ok(request)), EventView::Respond),
        is_inside(target(site, request.uri), site.serve_dir),
        files.contains_key(target(site, request.uri)),
        files[target(site, request.uri)] == Entry::File(contents),
        contents.len() <= u64::MAX,
    ensures
        is_answered(
            site,
            World::at(files, rest),
            PhaseView::Received(Ok(request)),
            ActionView::Respond,
            seq![EventView::Respond] + (seq![EventView::Opened(true)] + (seq![
                EventView::Kind(Ok(true)),
            ] + (seq![EventView::Length(Ok(contents.len() as u64))] + all_sent(4)))),
            header_bytes(Status::OK, Some(contents.len() as usize), "text/html"@) + contents,
            rest,
            Ok(afterwards(request.connection)),
        ),
{
    let world = World::at(files, rest);
    let path = target(site, request.uri);
    let open = ActionView::OpenFile(path);
    let after = world.after(open);
    let outcome: Outcome = Ok(afterwards(request.connection));
    let size = contents.len() as u64;
    let header = header_bytes(Status::OK, Some(size as usize), "text/html"@);
    let bytes = header + contents;
    let opening = PhaseView::Opening(request.connection);
    let inspecting = PhaseView::Inspecting(request.connection);
    let sizing = PhaseView::Sizing(request.connection);
    let e3 = seq![EventView::Length(Ok(size))] + all_sent(4);
    let e2 = seq![EventView::Kind(Ok(true))] + e3;
    let e1 = seq![EventView::Opened(true)] + e2;
    assert(header_steps(Status::OK, Some(size as usize), "text/html"@).push(
        StepView::CopyFile,
    ).push(StepView::Flush) =~= seq![
        StepView::Write(header),
        StepView::Flush,
        StepView::CopyFile,
        StepView::Flush,
    ]);
    lemma_four_steps(
        site,
        after,
        sizing,
        ActionView::CheckLength,
        EventView::Length(Ok(size)),
        header,
        StepView::CopyFile,
        outcome,
    );
    lemma_answered_later(
        site,
        after,
        inspecting,
        ActionView::CheckKind,
        EventView::Kind(Ok(true)),
        e3,
        bytes,
        rest,
        outcome,
    );
    lemma_answered_later(
        site,
        world,
        opening,
        open,
        EventView::Opened(true),
        e2,
        bytes,
        rest,
        outcome,
    );
    lemma_answered_later(
        site,
        world,
        PhaseView::Received(Ok(request)),
        ActionView::Respond,
        EventView::Respond,
        e1,
        bytes,
        rest,
        outcome,
    );
}

/// A header that was read is answered.
proof fn lemma_header_answered(
    site: Site,
    files: Map<Seq<char>, Entry>,
    header: Seq<char>,
    rest: Seq<u8>,
)
    requires
        accepts(after_header(header), EventView::Respond),
        sizes_fit(files),
    ensures
        is_answered(
            site,
            World::at(files, rest),
            after_header(header),
            ActionView::Respond,
            answer_events(site, files, header),
            response(site, files, header, rest).bytes(),
            body_left(rest, to_copy(after_header(header))),
            ending(header),
        ),
{
    let world = World::at(files, rest);
    let phase = after_header(header);
    match phase {
        PhaseView::Received(Ok(request)) => {
            let outcome: Outcome = Ok(afterwards(request.connection));
            if is_echo(request) {
                match request.content_length {
                    Some(size) => {
                        let bytes = header_bytes(Status::OK, None, "text/plain"@);
                        let body = StepView::CopyBody(size as u64);
                        assert(header_steps(Status::OK, None, "text/plain"@).push(body).push(
                            StepView::Flush,
                        ) =~= seq![StepView::Write(bytes), StepView::Flush, body, StepView::Flush]);
                        lemma_four_steps(
                            site,
                            world,
                            phase,
                            ActionView::Respond,
                            EventView::Respond,
                            bytes,
                            body,
                            outcome,
                        );
                        reveal_with_fuel(body_left, 2);
                        assert(seq![size as u64].drop_last() == Seq::<u64>::empty());
                    },
                    None => {
                        lemma_bare_echo_answered(site, world, request);
                        assert(response(site, files, header, rest).bytes() =~= header_bytes(
                            Status::OK,
                            None,
                            "text/plain"@,
                        ));
                    },
                }
            } else if request.method is POST {
                lemma_page_answered(
                    site,
                    world,
                    phase,
                    ActionView::Respond,
                    EventView::Respond,
                    Status::MethodNotAllowed,
                    "text/html"@,
                    outcome,
                );
            } else {
                lemma_get_answered(site, files, header, rest);
            }
        },
        PhaseView::Received(Err(e)) => {
            law_header_errors(header, e);
            lemma_page_answered(
                site,
                world,
                phase,
                ActionView::Respond,
                EventView::Respond,
                Status::InternalServerError,
                "text/plain"@,
                Err(e),
            );
        },
        PhaseView::UnknownMethod(connection) => {
            lemma_page_answered(
                site,
                world,
                phase,
                ActionView::Respond,
                EventView::Respond,
                Status::MethodNotAllowed,
                "text/html"@,
                Ok(afterwards(connection)),
            );
        },
        _ => {},
    }
}

/// What is left of a stream that begins with a header is what follows the header.
proof fn lemma_after_header(files: Map<Seq<char>, Entry>, header: Seq<char>, rest: Seq<u8>)
    requires
        is_header(header),
    ensures
        after_all(
            World::at(files, encode_utf8(header) + rest),
            read_lines(cut(header).len()),
        ) == World::at(files, rest),
        sent(World::at(files, encode_utf8(header) + rest), read_lines(cut(header).len()))
            == Seq::<u8>::empty(),
{
    law_header_taken(header, rest);
    lemma_lines_only_taken(World::at(files, encode_utf8(header) + rest), cut(header).len());
}

/// A request that can be answered is handled: its header is read and answered.
/// What happens does not depend on what follows the header.
pub proof fn law_request_handled(
    site: Site,
    files: Map<Seq<char>, Entry>,
    header: Seq<char>,
    rest: Seq<u8>,
)
    requires
        is_header(header),
        accepts(after_header(header), EventView::Respond),
        sizes_fit(files),
    ensures
        ({
            let world = World::at(files, encode_utf8(header) + rest);
            let events = request_events(site, files, header);
            let actions = actions_of(site, events);
            &&& handled(site, world, events)
            &&& run(site, PhaseView::Idle, events).0 == PhaseView::Idle
            &&& actions == read_lines(cut(header).len()).push(ActionView::Respond) + run(
                site,
                after_header(header),
                answer_events(site, files, header),
            ).1
            &&& actions.last() == ActionView::Done(ending(header))
            &&& sent(world, actions) == response(site, files, header, rest).bytes()
            &&& after_all(world, actions) == World::at(
                files,
                body_left(rest, to_copy(after_header(header))),
            )
        }),
{
    let world = World::at(files, encode_utf8(header) + rest);
    let reading = PhaseView::Reading(Seq::empty());
    let phase = after_header(header);
    let lines = cut(header);
    let opening = reads(lines);
    let tail = answer_events(site, files, header);
    let begin = seq![EventView::Begin];
    let events = begin + opening + tail;
    lemma_header_answered(site, files, header, rest);
    law_header_read_by_lines(site, header);
    lemma_begins_with_reading(site, opening);
    law_runs_follow_each_other(site, PhaseView::Idle, begin + opening, tail);
    lemma_after_header(files, header, rest);
    lemma_header_happens(site, files, header, rest, lines.len() as int);
    assert(lines.take(lines.len() as int) == lines);
    let asked = read_lines(lines.len());
    let first_actions = asked.push(ActionView::Respond);
    let more = run(site, phase, tail).1;
    let actions = first_actions + more;
    assert(actions_of(site, events) == actions);
    lemma_happens_split(site, world, reading, ActionView::ReadLine, opening, tail);
    assert(first_actions.drop_last() == asked);
    assert(events.skip(1) =~= opening + tail);
    assert forall|i: int| 0 < i < events.len() implies !(#[trigger] events[i] is Begin) by {
        if i > opening.len() {
            assert(events[i] == tail[i - 1 - opening.len()]);
        } else {
            assert(events[i] == opening[i - 1]);
        }
    }
    let none = Seq::<ActionView>::empty();
    assert(first_actions =~= asked + (seq![ActionView::Respond] + none));
    law_sent_in_order(world, asked, seq![ActionView::Respond] + none);
    lemma_first_action(World::at(files, rest), ActionView::Respond, none);
    law_sent_in_order(world, first_actions, more);
    let bytes = response(site, files, header, rest).bytes();
    assert(Seq::<u8>::empty() + Seq::<u8>::empty() =~= Seq::<u8>::empty());
    assert(Seq::<u8>::empty() + bytes =~= bytes);
    assert(actions.last() == more.last());
}

/// A request that is handled could be answered.
#[verifier::spinoff_prover]
proof fn lemma_was_answered(
    site: Site,
    files: Map<Seq<char>, Entry>,
    header: Seq<char>,
    rest: Seq<u8>,
    events: Seq<EventView>,
)
    requires
        is_header(header),
        handled(site, World::at(files, encode_utf8(header) + rest), events),
    ensures
        accepts(after_header(header), EventView::Respond),
{
    let world = World::at(files, encode_utf8(header) + rest);
    let reading = PhaseView::Reading(Seq::empty());
    let lines = cut(header);
    let opening = reads(lines);
    let told = events.skip(1);
    assert(seq![EventView::Begin] + told == events);
    lemma_header_happens(site, files, header, rest, lines.len() as int);
    assert(lines.take(lines.len() as int) == lines);
    law_header_read_by_lines(site, header);
    lemma_begins_with_reading(site, opening);
    lemma_begins_with_reading(site, told);
    let (phase, actions) = run(site, reading, opening);
    let done = seq![ActionView::ReadLine] + actions;
    if told.len() <= opening.len() {
        lemma_happens_one_way(site, world, reading, ActionView::ReadLine, told, opening);
        let others = opening.skip(told.len() as int);
        assert(told + others == opening);
        law_runs_follow_each_other(site, reading, told, others);
        let mine = run(site, reading, told).1;
        lemma_run_length(site, reading, told);
        assert(done[told.len() as int] == (seq![ActionView::ReadLine] + mine).last());
    } else {
        lemma_happens_one_way(site, world, reading, ActionView::ReadLine, opening, told);
        let others = told.skip(opening.len() as int);
        assert(opening + others == told);
        lemma_happens_split(site, world, reading, ActionView::ReadLine, opening, others);
        assert(done.last() == ActionView::Respond);
    }
}

proof fn lemma_run_length(site: Site, phase: PhaseView, events: Seq<EventView>)
    ensures
        run(site, phase, events).1.len() == events.len(),
    decreases events.len(),
{
    if events.len() > 0 {
        lemma_run_length(site, phase, events.drop_last());
    }
}

/// What a client is sent: whenever a request is handled, it is sent the response to its
/// header, the request ends as its header says, and what is left of the stream is what the
/// next request begins with.
pub proof fn law_response_sent(
    site: Site,
    files: Map<Seq<char>, Entry>,
    header: Seq<char>,
    rest: Seq<u8>,
    events: Seq<EventView>,
)
    requires
        is_header(header),
        sizes_fit(files),
        handled(site, World::at(files, encode_utf8(header) + rest), events),
    ensures
        ({
            let world = World::at(files, encode_utf8(header) + rest);
            let actions = actions_of(site, events);
            &&& events == request_events(site, files, header)
            &&& run(site, PhaseView::Idle, events).0 == PhaseView::Idle
            &&& actions.last() == ActionView::Done(ending(header))
            &&& sent(world, actions) == response(site, files, header, rest).bytes()
            &&& after_all(world, actions) == World::at(
                files,
                body_left(rest, to_copy(after_header(header))),
            )
        }),
{
    let world = World::at(files, encode_utf8(header) + rest);
    lemma_was_answered(site, files, header, rest, events);
    law_request_handled(site, files, header, rest);
    law_handled_one_way(site, world, events, request_events(site, files, header));
}

/// Whether a header and what follows it are a whole request: nothing follows but the body
/// that a `POST` of `/echo` announces.
pub open spec fn is_whole(header: Seq<char>, body: Seq<u8>) -> bool {
    let sizes = to_copy(after_header(header));
    &&& is_header(header)
    &&& body.len() == if sizes.len() == 0 {
        0
    } else {
        sizes[0] as nat
    }
}

/// Two requests on one stream: the first is handled as it is alone, and leaves exactly the
/// second in the stream.  Both together send what each sends alone, and the second ends as it
/// does alone.
pub proof fn law_requests_do_not_mix(
    site: Site,
    files: Map<Seq<char>, Entry>,
    header: Seq<char>,
    body: Seq<u8>,
    second: Seq<u8>,
    events: Seq<EventView>,
    more: Seq<EventView>,
)
    requires
        is_whole(header, body),
        sizes_fit(files),
        handled(site, World::at(files, encode_utf8(header) + body), events),
        handled(site, World::at(files, second), more),
    ensures
        ({
            let one = World::at(files, encode_utf8(header) + body);
            let two = World::at(files, second);
            let both = World::at(files, encode_utf8(header) + body + second);
            let actions = actions_of(site, events);
            let others = actions_of(site, more);
            &&& handled(site, both, events)
            &&& after_all(both, actions) == two
            &&& actions_of(site, events + more) == actions + others
            &&& sent(both, actions_of(site, events + more)) == sent(one, actions) + sent(
                two,
                others,
            )
            &&& actions_of(site, events + more).last() == others.last()
        }),
{
    let sizes = to_copy(after_header(header));
    let one = World::at(files, encode_utf8(header) + body);
    let two = World::at(files, second);
    let both = World::at(files, encode_utf8(header) + (body + second));
    let actions = actions_of(site, events);
    let others = actions_of(site, more);
    assert(encode_utf8(header) + body + second == encode_utf8(header) + (body + second));
    law_response_sent(site, files, header, body, events);
    lemma_was_answered(site, files, header, body, events);
    law_request_handled(site, files, header, body + second);
    law_runs_follow_each_other(site, PhaseView::Idle, events, more);
    law_sent_in_order(both, actions, others);
    lemma_run_length(site, PhaseView::Idle, more);
    assert((actions + others).last() == others.last());
    if sizes.len() == 0 {
        assert(body + second =~= second);
        assert(body =~= Seq::<u8>::empty());
    } else {
        assert(sizes.drop_last().len() == 0);
        reveal_with_fuel(body_left, 2);
        assert(without(body + second, sizes[0]) =~= second);
        assert(first(body + second, sizes[0]) =~= first(body, sizes[0]));
    }
    assert(response(site, files, header, body + second).bytes() == response(
        site,
        files,
        header,
        body,
    ).bytes());
}

/// Files are not kept: whatever was handled before, a `GET` of a file asks for opening it, for
/// its kind, its size and its contents anew.  It is sent what the file holds then, with the
/// size that it has then, or the page for what was not found if the file is gone.
pub proof fn law_files_are_not_kept(
    site: Site,
    before: Seq<EventView>,
    files: Map<Seq<char>, Entry>,
    header: Seq<char>,
    rest: Seq<u8>,
    request: Request,
    events: Seq<EventView>,
)
    requires
        run(site, PhaseView::Idle, before).0 == PhaseView::Idle,
        is_header(header),
        request_of(header) == Ok::<Request, HandleError>(request),
        request.method is GET,
        is_inside(target(site, request.uri), site.serve_dir),
        sizes_fit(files),
        handled(site, World::at(files, encode_utf8(header) + rest), events),
    ensures
        ({
            let world = World::at(files, encode_utf8(header) + rest);
            let path = target(site, request.uri);
            let actions = actions_of(site, events);
            &&& run(site, PhaseView::Idle, before + events) == (
                PhaseView::Idle,
                actions_of(site, before) + actions,
            )
            &&& files.contains_key(path) ==> (files[path] matches Entry::File(contents) ==> {
                let announced = header_bytes(
                    Status::OK,
                    Some(contents.len() as usize),
                    "text/html"@,
                );
                &&& actions == read_lines(cut(header).len()).push(ActionView::Respond) + seq![
                    ActionView::OpenFile(path),
                    ActionView::CheckKind,
                    ActionView::CheckLength,
                    ActionView::Send(StepView::Write(announced)),
                    ActionView::Send(StepView::Flush),
                    ActionView::Send(StepView::CopyFile),
                    ActionView::Send(StepView::Flush),
                    ActionView::Done(Ok(afterwards(request.connection))),
                ]
                &&& sent(world, actions) == announced + contents
            })
            &&& !files.contains_key(path) ==> sent(world, actions) == page_response(
                site,
                Status::NotFound,
                "text/html"@,
            ).bytes()
        }),
{
    let path = target(site, request.uri);
    if unknown_method(header) is Some {
        law_unknown_method_is_malformed(header);
    }
    law_runs_follow_each_other(site, PhaseView::Idle, before, events);
    law_response_sent(site, files, header, rest, events);
    lemma_was_answered(site, files, header, rest, events);
    law_request_handled(site, files, header, rest);
    if files.contains_key(path) {
        if let Entry::File(contents) = files[path] {
            law_file_served(site, request, Ok(contents.len() as u64));
        }
    }
}

/// What is sent is one header, which ends at its first empty line, and a body.  If the header
/// announces a size, the body has that size.  The header announces none if and only if the
/// request is a `POST` of `/echo`.
pub proof fn law_body_has_announced_length(
    site: Site,
    files: Map<Seq<char>, Entry>,
    header: Seq<char>,
    rest: Seq<u8>,
    events: Seq<EventView>,
)
    requires
        pages_fit(site),
        forall|path: Seq<char>|
            files.contains_key(path) ==> (#[trigger] files[path] matches Entry::File(contents)
                ==> contents.len() <= usize::MAX),
        is_header(header),
        handled(site, World::at(files, encode_utf8(header) + rest), events),
    ensures
        ({
            let world = World::at(files, encode_utf8(header) + rest);
            let reply = response(site, files, header, rest);
            let text = header_text(reply.status, reply.content_length, reply.content_type);
            let lines = pieces(text, "\r\n"@);
            &&& sent(world, actions_of(site, events)) == encode_utf8(text) + reply.body
            &&& is_header(text)
            &&& has_field(lines, "Content-Length"@) == (reply.content_length is Some)
            &&& reply.content_length matches Some(size) ==> {
                &&& lines.contains("Content-Length: "@ + decimal(size as nat))
                &&& reply.body.len() == size
            }
            &&& reply.content_length is None <==> (request_of(header) matches Ok(request)
                && is_echo(request))
        }),
{
    let reply = response(site, files, header, rest);
    if unknown_method(header) is Some {
        law_unknown_method_is_malformed(header);
    }
    law_response_sent(site, files, header, rest, events);
    lemma_types_are_plain();
    law_length_line(reply.status, reply.content_length, reply.content_type);
    if let Ok(request) = request_of(header) {
        let path = target(site, request.uri);
        assert(files.contains_key(path) ==> (files[path] matches Entry::File(contents)
            ==> contents.len() <= usize::MAX));
    }
}

/// The types of the bodies hold neither line breaks nor separators.
proof fn lemma_types_are_plain()
    ensures
        is_free_of("text/html"@, "\r\n"@),
        is_free_of("text/html"@, ": "@),
        is_free_of("text/plain"@, "\r\n"@),
        is_free_of("text/plain"@, ": "@),
{
    reveal_strlit("text/html");
    reveal_strlit("text/plain");
    reveal_strlit("\r\n");
    reveal_strlit(": ");
    lemma_free_without_first("text/html"@, "\r\n"@);
    lemma_free_without_first("text/html"@, ": "@);
    lemma_free_without_first("text/plain"@, "\r\n"@);
    lemma_free_without_first("text/plain"@, ": "@);
}

} // verus!
