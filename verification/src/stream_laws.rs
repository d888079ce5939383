//! What a request takes from the stream of bytes that the client sends.

use vstd::prelude::*;
use vstd::seq_lib::lemma_flatten_concat;
use vstd::utf8::{encode_scalar, encode_utf8};

use crate::context::Site;
use crate::error::{HandleError, InternalError};
use crate::handler::{
    accepts, after_header, afterwards, ends_header, header_steps, page_steps, sending, step, ActionView,
    EventView, Outcome, PhaseView, StepView,
};
use crate::handler_laws::{all_accepted, law_runs_follow_each_other, run};
use crate::request::{request_of, unknown_method, Request};
use crate::request_laws::{
    is_sayable, law_header_read_back, law_unknown_method_is_malformed, lemma_lines_for, lines_for,
};
use crate::status::Status;
use crate::text::{glued, is_free_of, matches_at};

verus! {

/// Where the first line of a text ends: behind its first `feed` or, if there is none, at the
/// end of the text.
pub open spec fn line_end<A>(text: Seq<A>, feed: A) -> int
    decreases text.len(),
{
    if text.len() == 0 {
        0
    } else if text[0] == feed {
        1
    } else {
        1 + line_end(text.skip(1), feed)
    }
}

/// The first line of a text is not empty unless the text is, and only its last item can be
/// the `feed`.
pub proof fn lemma_line_end<A>(text: Seq<A>, feed: A)
    ensures
        0 <= line_end(text, feed) <= text.len(),
        text.len() > 0 ==> line_end(text, feed) > 0,
        text.len() > 0 && text.last() == feed ==> text[line_end(text, feed) - 1] == feed,
        forall|i: int| 0 <= i < line_end(text, feed) - 1 ==> #[trigger] text[i] != feed,
    decreases text.len(),
{
    if text.len() > 0 && text[0] != feed {
        let rest = text.skip(1);
        lemma_line_end(rest, feed);
        if text.last() == feed {
            assert(rest.last() == feed);
            assert(rest[line_end(rest, feed) - 1] == text[line_end(rest, feed)]);
        }
        assert forall|i: int| 0 <= i < line_end(text, feed) - 1 implies #[trigger] text[i]
            != feed by {
            if i > 0 {
                assert(rest[i - 1] == text[i]);
            }
        }
    }
}

/// A text, cut behind each of its line feeds.
pub open spec fn cut(text: Seq<char>) -> Seq<Seq<char>>
    decreases text.len(),
{
    if text.len() == 0 {
        Seq::empty()
    } else {
        let n = line_end(text, '\n');
        proof {
            lemma_line_end(text, '\n');
        }
        seq![text.take(n)] + cut(text.skip(n))
    }
}

/// The lines of a text are not empty, and together they are the text.
pub proof fn law_cut(text: Seq<char>)
    ensures
        cut(text).flatten() == text,
        forall|i: int| 0 <= i < cut(text).len() ==> (#[trigger] cut(text)[i]).len() > 0,
    decreases text.len(),
{
    if text.len() > 0 {
        let n = line_end(text, '\n');
        let rest = text.skip(n);
        lemma_line_end(text, '\n');
        law_cut(rest);
        assert(cut(text).drop_first() == cut(rest));
        assert(text.take(n) + rest == text);
        assert forall|i: int| 0 <= i < cut(text).len() implies (#[trigger] cut(text)[i]).len()
            > 0 by {
            if i > 0 {
                assert(cut(text)[i] == cut(rest)[i - 1]);
            }
        }
    }
}

/// Whether the text is one line: it ends in a line feed and holds no other.
pub open spec fn is_line(text: Seq<char>) -> bool {
    &&& text.len() > 0
    &&& text.last() == '\n'
    &&& forall|i: int| 0 <= i < text.len() - 1 ==> #[trigger] text[i] != '\n'
}

/// Where a text ends in a line feed, so does each of its lines.
proof fn lemma_cut_lines(text: Seq<char>)
    requires
        text.len() > 0,
        text.last() == '\n',
    ensures
        forall|i: int| 0 <= i < cut(text).len() ==> is_line(#[trigger] cut(text)[i]),
    decreases text.len(),
{
    let n = line_end(text, '\n');
    let rest = text.skip(n);
    lemma_line_end(text, '\n');
    assert(is_line(text.take(n)));
    if rest.len() > 0 {
        assert(rest.last() == '\n');
        lemma_cut_lines(rest);
    }
    assert forall|i: int| 0 <= i < cut(text).len() implies is_line(#[trigger] cut(text)[i]) by {
        if i > 0 {
            assert(cut(text)[i] == cut(rest)[i - 1]);
        }
    }
}

/// Whether the text is a header: it ends in an empty line, and no shorter beginning of it
/// does.
pub open spec fn is_header(text: Seq<char>) -> bool {
    &&& ends_header(text)
    &&& forall|k: int| 0 <= k < text.len() ==> !ends_header(#[trigger] text.take(k))
}

/// The events of reading the given lines.
pub open spec fn reads(lines: Seq<Seq<char>>) -> Seq<EventView> {
    Seq::new(lines.len(), |i: int| EventView::Line(Ok(lines[i])))
}

/// `n` requests for a line.
pub open spec fn read_lines(n: nat) -> Seq<ActionView> {
    Seq::new(n, |i: int| ActionView::ReadLine)
}

/// Reading goes on as long as what was read does not end in an empty line.
pub proof fn lemma_reading(site: Site, lines: Seq<Seq<char>>)
    requires
        forall|i: int| 0 <= i < lines.len() ==> (#[trigger] lines[i]).len() > 0,
        forall|k: int| 0 <= k <= lines.len() ==> !ends_header(#[trigger] lines.take(k).flatten()),
    ensures
        run(site, PhaseView::Idle, seq![EventView::Begin] + reads(lines)) == (
            PhaseView::Reading(lines.flatten()),
            read_lines(lines.len() + 1),
        ),
    decreases lines.len(),
{
    let events = seq![EventView::Begin] + reads(lines);
    if lines.len() == 0 {
        assert(events.drop_last() == Seq::<EventView>::empty());
        assert(run(site, PhaseView::Idle, Seq::<EventView>::empty()) == (
            PhaseView::Idle,
            Seq::<ActionView>::empty(),
        ));
        assert(Seq::<ActionView>::empty().push(ActionView::ReadLine) =~= read_lines(1));
        assert(lines.flatten() =~= Seq::<char>::empty());
    } else {
        let before = lines.drop_last();
        assert forall|i: int| 0 <= i < before.len() implies (#[trigger] before[i]).len() > 0 by {
            assert(before[i] == lines[i]);
        }
        assert forall|k: int| 0 <= k <= before.len() implies !ends_header(
            #[trigger] before.take(k).flatten(),
        ) by {
            assert(before.take(k) == lines.take(k));
        }
        lemma_reading(site, before);
        assert(events.drop_last() == seq![EventView::Begin] + reads(before));
        assert(events.last() == EventView::Line(Ok(lines.last())));
        before.lemma_flatten_push(lines.last());
        assert(before.push(lines.last()) == lines);
        assert(lines.take(lines.len() as int) == lines);
        assert(read_lines(lines.len()).push(ActionView::ReadLine) =~= read_lines(lines.len() + 1));
    }
}

/// A header is read, in whatever pieces it comes, up to its empty line, and is then taken as
/// a whole.  Until then nothing is asked for but the next line.
pub proof fn law_header_read(site: Site, lines: Seq<Seq<char>>)
    requires
        forall|i: int| 0 <= i < lines.len() ==> (#[trigger] lines[i]).len() > 0,
        ends_header(lines.flatten()),
        forall|k: int| 0 <= k < lines.len() ==> !ends_header(#[trigger] lines.take(k).flatten()),
    ensures
        run(site, PhaseView::Idle, seq![EventView::Begin] + reads(lines)) == (
            after_header(lines.flatten()),
            read_lines(lines.len()).push(ActionView::Respond),
        ),
{
    let events = seq![EventView::Begin] + reads(lines);
    if lines.len() == 0 {
        assert(lines.flatten() =~= Seq::<char>::empty());
    } else {
        let before = lines.drop_last();
        assert forall|i: int| 0 <= i < before.len() implies (#[trigger] before[i]).len() > 0 by {
            assert(before[i] == lines[i]);
        }
        assert forall|k: int| 0 <= k <= before.len() implies !ends_header(
            #[trigger] before.take(k).flatten(),
        ) by {
            assert(before.take(k) == lines.take(k));
        }
        lemma_reading(site, before);
        assert(events.drop_last() == seq![EventView::Begin] + reads(before));
        assert(events.last() == EventView::Line(Ok(lines.last())));
        before.lemma_flatten_push(lines.last());
        assert(before.push(lines.last()) == lines);
    }
}

/// No piece of a header but the last one completes it.
pub proof fn lemma_pieces_of_header(header: Seq<char>, parts: Seq<Seq<char>>)
    requires
        is_header(header),
        parts.flatten() == header,
        forall|i: int| 0 <= i < parts.len() ==> (#[trigger] parts[i]).len() > 0,
    ensures
        forall|k: int| 0 <= k < parts.len() ==> !ends_header(#[trigger] parts.take(k).flatten()),
{
    assert forall|k: int| 0 <= k < parts.len() implies !ends_header(
        #[trigger] parts.take(k).flatten(),
    ) by {
        let left = parts.take(k);
        let right = parts.skip(k);
        assert(left + right == parts);
        lemma_flatten_concat(left, right);
        assert(right.first() == parts[k]);
        assert(right.flatten().len() > 0);
        assert(header.take(left.flatten().len() as int) == left.flatten());
    }
}

/// How a header is cut into pieces does not matter: it is taken after its last piece, as the
/// same whole.
pub proof fn law_cuts_do_not_matter(
    site: Site,
    header: Seq<char>,
    one: Seq<Seq<char>>,
    other: Seq<Seq<char>>,
)
    requires
        is_header(header),
        one.flatten() == header,
        forall|i: int| 0 <= i < one.len() ==> (#[trigger] one[i]).len() > 0,
        other.flatten() == header,
        forall|i: int| 0 <= i < other.len() ==> (#[trigger] other[i]).len() > 0,
    ensures
        run(site, PhaseView::Idle, seq![EventView::Begin] + reads(one)).0 == run(
            site,
            PhaseView::Idle,
            seq![EventView::Begin] + reads(other),
        ).0,
        run(site, PhaseView::Idle, seq![EventView::Begin] + reads(one)).0 == after_header(header),
{
    lemma_pieces_of_header(header, one);
    lemma_pieces_of_header(header, other);
    law_header_read(site, one);
    law_header_read(site, other);
}

/// A header that is read line by line is taken after its last line.
pub proof fn law_header_read_by_lines(site: Site, header: Seq<char>)
    requires
        is_header(header),
    ensures
        run(site, PhaseView::Idle, seq![EventView::Begin] + reads(cut(header))) == (
            after_header(header),
            read_lines(cut(header).len()).push(ActionView::Respond),
        ),
{
    law_cut(header);
    lemma_pieces_of_header(header, cut(header));
    law_header_read(site, cut(header));
}

proof fn lemma_encode_concat(left: Seq<char>, right: Seq<char>)
    ensures
        encode_utf8(left + right) == encode_utf8(left) + encode_utf8(right),
    decreases left.len(),
{
    if left.len() == 0 {
        assert(left + right == right);
        assert(encode_utf8(left) + encode_utf8(right) == encode_utf8(right));
    } else {
        lemma_encode_concat(left.drop_first(), right);
        assert((left + right).drop_first() == left.drop_first() + right);
        assert((left + right)[0] == left[0]);
        let first = encode_scalar(left[0] as u32);
        assert(first + (encode_utf8(left.drop_first()) + encode_utf8(right)) == first
            + encode_utf8(left.drop_first()) + encode_utf8(right));
    }
}

/// The byte of a line feed stands for a line feed, and for nothing else.
proof fn lemma_encoded_feed(c: char)
    ensures
        c == '\n' ==> encode_scalar(c as u32) == seq![10u8],
        c != '\n' ==> !encode_scalar(c as u32).contains(10u8),
{
    let v = c as u32;
    assert((v & 0x7F) as u8 == 10u8 && v <= 0x7F ==> v == 10) by (bit_vector);
    assert(v == 10 ==> (v & 0x7F) as u8 == 10u8) by (bit_vector);
    assert(0xC0 | ((v >> 6) & 0x1F) as u8 != 10u8) by (bit_vector);
    assert(0xE0 | ((v >> 12) & 0x0F) as u8 != 10u8) by (bit_vector);
    assert(0xF0 | ((v >> 18) & 0x7) as u8 != 10u8) by (bit_vector);
    assert(0x80 | (v & 0x3F) as u8 != 10u8) by (bit_vector);
    assert(0x80 | ((v >> 6) & 0x3F) as u8 != 10u8) by (bit_vector);
    assert(0x80 | ((v >> 12) & 0x3F) as u8 != 10u8) by (bit_vector);
    assert('\n' as u32 == 10);
}

/// Bytes without a line feed only put the end of the line off.
proof fn lemma_line_end_after(head: Seq<u8>, rest: Seq<u8>)
    requires
        !head.contains(10u8),
    ensures
        line_end(head + rest, 10u8) == head.len() + line_end(rest, 10u8),
    decreases head.len(),
{
    if head.len() == 0 {
        assert(head + rest == rest);
    } else {
        let tail = head.skip(1);
        assert(head.contains(head[0]));
        assert forall|i: int| 0 <= i < tail.len() implies tail[i] != 10u8 by {
            assert(head.contains(head[i + 1]));
        }
        lemma_line_end_after(tail, rest);
        assert((head + rest).skip(1) == tail + rest);
        assert((head + rest)[0] == head[0]);
    }
}

/// The first line of the bytes is the line that they begin with.
proof fn lemma_encoded_line(line: Seq<char>, rest: Seq<u8>)
    requires
        is_line(line),
    ensures
        line_end(encode_utf8(line) + rest, 10u8) == encode_utf8(line).len(),
    decreases line.len(),
{
    let first = encode_scalar(line[0] as u32);
    let tail = line.drop_first();
    lemma_encoded_feed(line[0]);
    assert(encode_utf8(line) == first + encode_utf8(tail));
    if line.len() == 1 {
        assert(tail.len() == 0);
        assert(encode_utf8(tail) == Seq::<u8>::empty());
        assert(encode_utf8(line) == seq![10u8]);
        assert((encode_utf8(line) + rest)[0] == 10u8);
    } else {
        assert(line[0] != '\n');
        assert(tail.last() == line.last());
        assert forall|i: int| 0 <= i < tail.len() - 1 implies #[trigger] tail[i] != '\n' by {
            assert(tail[i] == line[i + 1]);
        }
        lemma_encoded_line(tail, rest);
        lemma_line_end_after(first, encode_utf8(tail) + rest);
        assert(encode_utf8(line) + rest == first + (encode_utf8(tail) + rest));
    }
}

/// What is left of the stream after the first bytes of it were taken, as many as asked for
/// or as there are.
pub open spec fn without(stream: Seq<u8>, size: u64) -> Seq<u8> {
    stream.skip(
        if size <= stream.len() {
            size as int
        } else {
            stream.len() as int
        },
    )
}

/// What is left of the stream after an action was done: reading a line takes the first line
/// of it, copying the body takes as much as is to be copied, and nothing else takes anything.
pub open spec fn left_after(stream: Seq<u8>, action: ActionView) -> Seq<u8> {
    match action {
        ActionView::ReadLine => stream.skip(line_end(stream, 10u8)),
        ActionView::Send(StepView::CopyBody(size)) => without(stream, size),
        _ => stream,
    }
}

/// What is left of the stream after the given actions were done, one after the other.
pub open spec fn left_of(stream: Seq<u8>, actions: Seq<ActionView>) -> Seq<u8>
    decreases actions.len(),
{
    if actions.len() == 0 {
        stream
    } else {
        left_after(left_of(stream, actions.drop_last()), actions.last())
    }
}

/// Later actions take from what earlier ones left.
pub proof fn law_left_of_rest(stream: Seq<u8>, first: Seq<ActionView>, last: Seq<ActionView>)
    ensures
        left_of(stream, first + last) == left_of(left_of(stream, first), last),
    decreases last.len(),
{
    if last.len() == 0 {
        assert(first + last == first);
    } else {
        law_left_of_rest(stream, first, last.drop_last());
        assert((first + last).drop_last() == first + last.drop_last());
        assert((first + last).last() == last.last());
    }
}

/// The bytes of the given lines, in order.
pub open spec fn bytes_of(lines: Seq<Seq<char>>) -> Seq<u8> {
    encode_utf8(lines.flatten())
}

/// Lines are read from the stream one by one.
proof fn lemma_lines_taken(lines: Seq<Seq<char>>, rest: Seq<u8>, k: int)
    requires
        forall|i: int| 0 <= i < lines.len() ==> is_line(#[trigger] lines[i]),
        0 <= k <= lines.len(),
    ensures
        left_of(bytes_of(lines) + rest, read_lines(k as nat)) == bytes_of(lines.skip(k)) + rest,
    decreases k,
{
    let stream = bytes_of(lines) + rest;
    let asked = read_lines(k as nat);
    if k == 0 {
        assert(lines.skip(0) == lines);
        assert(asked.len() == 0);
    } else {
        lemma_lines_taken(lines, rest, k - 1);
        assert(asked.drop_last() == read_lines((k - 1) as nat));
        assert(asked.last() == ActionView::ReadLine);
        lemma_next_line(lines, rest, k - 1);
        let line = encode_utf8(lines[k - 1]);
        let more = bytes_of(lines.skip(k)) + rest;
        assert((line + more).skip(line.len() as int) == more);
    }
}

/// The next line comes first in what is left.
proof fn lemma_next_line(lines: Seq<Seq<char>>, rest: Seq<u8>, k: int)
    requires
        forall|i: int| 0 <= i < lines.len() ==> is_line(#[trigger] lines[i]),
        0 <= k < lines.len(),
    ensures
        bytes_of(lines.skip(k)) + rest == encode_utf8(lines[k]) + (bytes_of(lines.skip(k + 1))
            + rest),
        line_end(bytes_of(lines.skip(k)) + rest, 10u8) == encode_utf8(lines[k]).len(),
{
    let now = lines.skip(k);
    assert(now.drop_first() == lines.skip(k + 1));
    assert(now.first() == lines[k]);
    lemma_encode_concat(lines[k], now.drop_first().flatten());
    let more = bytes_of(lines.skip(k + 1)) + rest;
    assert(bytes_of(now) + rest == encode_utf8(lines[k]) + more);
    lemma_encoded_line(lines[k], more);
}

/// What the events of reading a header say is what the stream holds: each line is the first
/// one of what the lines before it left, and after the last of them exactly the header is
/// taken.
pub proof fn law_header_taken(header: Seq<char>, body: Seq<u8>)
    requires
        is_header(header),
    ensures
        ({
            let stream = encode_utf8(header) + body;
            let lines = cut(header);
            &&& left_of(stream, read_lines(lines.len())) == body
            &&& forall|k: int|
                #![trigger lines[k]]
                0 <= k < lines.len() ==> {
                    let left = left_of(stream, read_lines(k as nat));
                    left.take(line_end(left, 10u8)) == encode_utf8(lines[k])
                }
        }),
{
    let stream = encode_utf8(header) + body;
    let lines = cut(header);
    reveal_strlit("\r\n\r\n");
    let n = header.len() as int;
    assert(header.subrange(n - 4, n)[3] == header[n - 1]);
    law_cut(header);
    lemma_cut_lines(header);
    lemma_lines_taken(lines, body, lines.len() as int);
    let none = lines.skip(lines.len() as int);
    assert(none.len() == 0);
    assert(none.flatten() =~= Seq::<char>::empty());
    assert(bytes_of(none) + body =~= body);
    assert forall|k: int|
        #![trigger lines[k]]
        0 <= k < lines.len() implies {
        let left = left_of(stream, read_lines(k as nat));
        left.take(line_end(left, 10u8)) == encode_utf8(lines[k])
    } by {
        lemma_lines_taken(lines, body, k);
        lemma_next_line(lines, body, k);
        let line = encode_utf8(lines[k]);
        let more = bytes_of(lines.skip(k + 1)) + body;
        assert((line + more).take(line.len() as int) == line);
    }
}

/// The sizes that the given steps copy from the body of the request.
pub open spec fn copied(steps: Seq<StepView>) -> Seq<u64>
    decreases steps.len(),
{
    if steps.len() == 0 {
        Seq::empty()
    } else {
        match steps[0] {
            StepView::CopyBody(size) => seq![size] + copied(steps.skip(1)),
            _ => copied(steps.skip(1)),
        }
    }
}

/// The sizes that an action asks to copy from the body of the request.
pub open spec fn asked_by(action: ActionView) -> Seq<u64> {
    match action {
        ActionView::Send(StepView::CopyBody(size)) => seq![size],
        _ => Seq::empty(),
    }
}

/// The sizes that the given actions ask to copy from the body of the request.
pub open spec fn asked(actions: Seq<ActionView>) -> Seq<u64>
    decreases actions.len(),
{
    if actions.len() == 0 {
        Seq::empty()
    } else {
        asked(actions.drop_last()) + asked_by(actions.last())
    }
}

/// The sizes that are still to be copied from the body of the request: only a `POST` of
/// `/echo` has any, and it has the one that its header announces.
pub open spec fn to_copy(phase: PhaseView) -> Seq<u64> {
    match phase {
        PhaseView::Received(Ok(request)) => if request.uri == "/echo"@ && request.method is POST {
            match request.content_length {
                Some(size) => seq![size as u64],
                None => Seq::empty(),
            }
        } else {
            Seq::empty()
        },
        PhaseView::Sending(rest, _) => copied(rest),
        _ => Seq::empty(),
    }
}

proof fn lemma_nothing_copied(steps: Seq<StepView>)
    requires
        forall|i: int| 0 <= i < steps.len() ==> !(#[trigger] steps[i] is CopyBody),
    ensures
        copied(steps) == Seq::<u64>::empty(),
    decreases steps.len(),
{
    if steps.len() > 0 {
        let rest = steps.skip(1);
        assert forall|i: int| 0 <= i < rest.len() implies !(#[trigger] rest[i] is CopyBody) by {
            assert(rest[i] == steps[i + 1]);
        }
        lemma_nothing_copied(rest);
    }
}

/// The first step and the others copy what all of them copy.
proof fn lemma_sending_copies(steps: Seq<StepView>, outcome: Outcome)
    ensures
        ({
            let (next, action) = sending(steps, outcome);
            asked_by(action) + to_copy(next) == copied(steps)
        }),
{
    if steps.len() > 0 {
        assert(Seq::<u64>::empty() + copied(steps.skip(1)) == copied(steps.skip(1)));
    }
}

proof fn lemma_echo_copies(size: u64)
    ensures
        copied(
            header_steps(Status::OK, None, "text/plain"@).push(StepView::CopyBody(size)).push(
                StepView::Flush,
            ),
        ) == seq![size],
{
    let steps = header_steps(Status::OK, None, "text/plain"@).push(StepView::CopyBody(size)).push(
        StepView::Flush,
    );
    assert(steps.skip(1).skip(1) == seq![StepView::CopyBody(size), StepView::Flush]);
    assert(steps.skip(1).skip(1).skip(1) == seq![StepView::Flush]);
    lemma_nothing_copied(seq![StepView::Flush]);
    reveal_with_fuel(copied, 4);
    assert(seq![size] + Seq::<u64>::empty() == seq![size]);
}

/// Once the header is read, an event takes from the stream what is to be copied or, if a
/// step failed, nothing; it never takes a line.
proof fn lemma_step_copies(site: Site, phase: PhaseView, event: EventView)
    requires
        accepts(phase, event),
        !(phase is Idle),
        !(phase is Reading),
    ensures
        ({
            let (next, action) = step(site, phase, event);
            &&& !(next is Reading)
            &&& !(action is ReadLine)
            &&& if event is Sent && event->Sent_0 is Err {
                next is Idle && asked_by(action) == Seq::<u64>::empty()
            } else {
                asked_by(action) + to_copy(next) == to_copy(phase)
            }
        }),
{
    let none = Seq::<u64>::empty();
    assert(none + none == none);
    assert forall|status: Status, content_type: Seq<char>, outcome: Outcome|
        #![trigger sending(page_steps(site, status, content_type).push(StepView::Flush), outcome)]
        {
            let (next, action) = sending(
                page_steps(site, status, content_type).push(StepView::Flush),
                outcome,
            );
            asked_by(action) + to_copy(next) == none
        } by {
        let steps = page_steps(site, status, content_type).push(StepView::Flush);
        lemma_nothing_copied(steps);
        lemma_sending_copies(steps, outcome);
    }
    match (phase, event) {
        (PhaseView::Received(Ok(request)), EventView::Respond) => {
            let header = header_steps(Status::OK, None, "text/plain"@);
            if let Some(size) = request.content_length {
                lemma_echo_copies(size as u64);
                lemma_sending_copies(
                    header.push(StepView::CopyBody(size as u64)).push(StepView::Flush),
                    Ok(afterwards(request.connection)),
                );
            } else {
                lemma_nothing_copied(header);
                lemma_sending_copies(
                    header,
                    Err(
                        HandleError::Internal(InternalError::RequiredHeaderField),
                    ),
                );
            }
        },
        (PhaseView::Sizing(connection), EventView::Length(size)) => {
            let announced = match size {
                Ok(n) => Some(n as usize),
                Err(_) => None,
            };
            let steps = header_steps(Status::OK, announced, "text/html"@).push(
                StepView::CopyFile,
            ).push(StepView::Flush);
            lemma_nothing_copied(steps);
            lemma_sending_copies(steps, Ok(afterwards(connection)));
        },
        (PhaseView::Sending(rest, outcome), EventView::Sent(Ok(()))) => {
            lemma_sending_copies(rest, outcome);
        },
        _ => {},
    }
}

/// From the end of the header to the next request no line is read, and nothing is copied
/// from the body but what the request asks for, at most once.  Unless a step failed, what was
/// copied and what is still to be copied are together what the request asks for.
pub proof fn law_body_copied(site: Site, phase: PhaseView, events: Seq<EventView>)
    requires
        !(phase is Idle),
        !(phase is Reading),
        all_accepted(site, phase, events),
        forall|i: int| 0 <= i < events.len() ==> !(#[trigger] events[i] is Begin),
    ensures
        ({
            let (end, actions) = run(site, phase, events);
            let failed = events.len() > 0 && events.last() is Sent && events.last()->Sent_0 is Err;
            &&& !(end is Reading)
            &&& actions.len() == events.len()
            &&& forall|i: int| 0 <= i < actions.len() ==> !(#[trigger] actions[i] is ReadLine)
            &&& asked(actions).is_prefix_of(to_copy(phase))
            &&& failed ==> end is Idle
            &&& !failed ==> asked(actions) + to_copy(end) == to_copy(phase)
            &&& events.len() == 0 ==> end == phase
        }),
    decreases events.len(),
{
    let owed = to_copy(phase);
    if events.len() == 0 {
        assert(Seq::<u64>::empty() + owed == owed);
        assert(owed.subrange(0, 0) == Seq::<u64>::empty());
    } else {
        let before = events.drop_last();
        assert forall|i: int| 0 <= i < before.len() implies !(#[trigger] before[i] is Begin) by {
            assert(before[i] == events[i]);
        }
        law_body_copied(site, phase, before);
        let (between, actions) = run(site, phase, before);
        assert(!(events[events.len() - 1] is Begin));
        lemma_step_copies(site, between, events.last());
        let (end, action) = step(site, between, events.last());
        let all = actions.push(action);
        assert(all.drop_last() == actions);
        assert(asked(all) == asked(actions) + asked_by(action));
        assert(asked(actions) + to_copy(between) == owed);
        if events.last() is Sent && events.last()->Sent_0 is Err {
            assert(asked(all) == asked(actions));
        } else {
            assert(asked(all) + to_copy(end) == asked(actions) + (asked_by(action) + to_copy(
                end,
            )));
        }
        assert(owed.subrange(0, asked(all).len() as int) == asked(all)) by {
            if events.last() is Sent && events.last()->Sent_0 is Err {
                assert((asked(actions) + to_copy(between)).subrange(
                    0,
                    asked(all).len() as int,
                ) == asked(all));
            } else {
                assert((asked(all) + to_copy(end)).subrange(0, asked(all).len() as int) == asked(
                    all,
                ));
            }
        }
    }
}

/// What is left of the body after the given sizes were copied from it.
pub open spec fn body_left(body: Seq<u8>, sizes: Seq<u64>) -> Seq<u8>
    decreases sizes.len(),
{
    if sizes.len() == 0 {
        body
    } else {
        without(body_left(body, sizes.drop_last()), sizes.last())
    }
}

/// Where no line is read, only what is copied is taken.
proof fn lemma_only_copied(stream: Seq<u8>, actions: Seq<ActionView>)
    requires
        forall|i: int| 0 <= i < actions.len() ==> !(#[trigger] actions[i] is ReadLine),
    ensures
        left_of(stream, actions) == body_left(stream, asked(actions)),
    decreases actions.len(),
{
    if actions.len() > 0 {
        let before = actions.drop_last();
        let action = actions.last();
        assert forall|i: int| 0 <= i < before.len() implies !(#[trigger] before[i]
            is ReadLine) by {
            assert(before[i] == actions[i]);
        }
        lemma_only_copied(stream, before);
        assert(!(actions[actions.len() - 1] is ReadLine));
        if let ActionView::Send(StepView::CopyBody(size)) = action {
            assert((asked(before) + seq![size]).drop_last() == asked(before));
        } else {
            assert(asked(before) + Seq::<u64>::empty() == asked(before));
        }
    }
}

/// What a request takes from the stream: exactly its header and, if it is a `POST` of `/echo`,
/// as much of what follows as its header announces and as there is.  Everything else is left
/// for the next request.  If a step of the response fails, the body may be left as well.
pub proof fn law_request_takes(
    site: Site,
    header: Seq<char>,
    body: Seq<u8>,
    events: Seq<EventView>,
)
    requires
        is_header(header),
        all_accepted(site, after_header(header), events),
        forall|i: int| 0 <= i < events.len() ==> !(#[trigger] events[i] is Begin),
    ensures
        ({
            let stream = encode_utf8(header) + body;
            let taken = body_left(body, to_copy(after_header(header)));
            let (end, actions) = run(
                site,
                PhaseView::Idle,
                seq![EventView::Begin] + reads(cut(header)) + events,
            );
            let failed = events.len() > 0 && events.last() is Sent && events.last()->Sent_0 is Err;
            &&& left_of(stream, actions) == body || left_of(stream, actions) == taken
            &&& end is Idle && !failed ==> left_of(stream, actions) == taken
        }),
{
    let stream = encode_utf8(header) + body;
    let phase = after_header(header);
    let lines = cut(header);
    let first = seq![EventView::Begin] + reads(lines);
    law_header_read_by_lines(site, header);
    law_runs_follow_each_other(site, PhaseView::Idle, first, events);
    law_body_copied(site, phase, events);
    law_header_taken(header, body);
    let (end, actions) = run(site, phase, events);
    let opening = read_lines(lines.len()).push(ActionView::Respond);
    assert(opening.drop_last() == read_lines(lines.len()));
    assert(left_of(stream, opening) == body);
    law_left_of_rest(stream, opening, actions);
    lemma_only_copied(body, actions);
    let owed = to_copy(phase);
    assert(owed.len() <= 1);
    assert(owed.subrange(0, asked(actions).len() as int) == asked(actions));
    if asked(actions).len() == owed.len() {
        assert(asked(actions) == owed);
    } else {
        assert(asked(actions).len() == 0);
    }
    if end is Idle {
        assert(asked(actions) + Seq::<u64>::empty() == asked(actions));
    }
}

/// A request that has no body to send back takes its header and nothing else, whatever
/// becomes of its response.
pub proof fn law_other_body_left(
    site: Site,
    header: Seq<char>,
    body: Seq<u8>,
    events: Seq<EventView>,
)
    requires
        is_header(header),
        all_accepted(site, after_header(header), events),
        forall|i: int| 0 <= i < events.len() ==> !(#[trigger] events[i] is Begin),
        request_of(header) matches Ok(request) ==> !(request.uri == "/echo"@
            && request.method is POST && request.content_length is Some),
    ensures
        left_of(
            encode_utf8(header) + body,
            run(
                site,
                PhaseView::Idle,
                seq![EventView::Begin] + reads(cut(header)) + events,
            ).1,
        ) == body,
{
    law_request_takes(site, header, body, events);
    assert(to_copy(after_header(header)) == Seq::<u64>::empty());
}

/// A `POST` of `/echo` takes, when its response is sent, its header and the announced size of
/// what follows, or all that follows if there is less.
pub proof fn law_echo_body_taken(
    site: Site,
    header: Seq<char>,
    body: Seq<u8>,
    request: Request,
    size: usize,
    events: Seq<EventView>,
)
    requires
        is_header(header),
        request_of(header) == Ok::<Request, HandleError>(request),
        request.uri == "/echo"@,
        request.method is POST,
        request.content_length == Some(size),
        all_accepted(site, after_header(header), events),
        forall|i: int| 0 <= i < events.len() ==> !(#[trigger] events[i] is Begin),
        events.len() > 0,
        events.last() == EventView::Sent(Ok(())),
        run(site, after_header(header), events).0 is Idle,
    ensures
        left_of(
            encode_utf8(header) + body,
            run(
                site,
                PhaseView::Idle,
                seq![EventView::Begin] + reads(cut(header)) + events,
            ).1,
        ) == without(body, size as u64),
{
    if unknown_method(header) is Some {
        law_unknown_method_is_malformed(header);
    }
    let first = seq![EventView::Begin] + reads(cut(header));
    law_header_read_by_lines(site, header);
    law_runs_follow_each_other(site, PhaseView::Idle, first, events);
    law_request_takes(site, header, body, events);
    let sizes = seq![size as u64];
    assert(to_copy(after_header(header)) == sizes);
    assert(sizes.drop_last() == Seq::<u64>::empty());
    reveal_with_fuel(body_left, 2);
}

/// Whether the text can be a line of a header, other than the empty one at its end.
pub open spec fn is_header_line(line: Seq<char>) -> bool {
    line.len() > 0 && is_free_of(line, "\r\n"@)
}

/// Whether an empty line ends right in front of `i + 4`.
spec fn is_empty_line(text: Seq<char>, i: int) -> bool {
    text[i] == '\r' && text[i + 1] == '\n' && text[i + 2] == '\r' && text[i + 3] == '\n'
}

/// Lines that are not empty, followed by an empty line, hold no empty line before it.
proof fn lemma_first_empty_line(lines: Seq<Seq<char>>)
    requires
        forall|i: int| 0 <= i < lines.len() ==> is_header_line(#[trigger] lines[i]),
    ensures
        ({
            let nothing = Seq::<char>::empty();
            let text = glued(lines + seq![nothing, nothing], "\r\n"@);
            &&& text.len() >= 2
            &&& lines.len() == 0 ==> text == "\r\n"@
            &&& lines.len() > 0 ==> !(text[0] == '\r' && text[1] == '\n')
            &&& lines.len() > 0 ==> text.len() >= 4 && is_empty_line(text, text.len() - 4)
            &&& forall|j: int|
                0 <= j && j + 4 < text.len() ==> !(#[trigger] is_empty_line(text, j))
        }),
    decreases lines.len(),
{
    let feed = "\r\n"@;
    let nothing = Seq::<char>::empty();
    let end = seq![nothing, nothing];
    let text = glued(lines + end, feed);
    reveal_strlit("\r\n");
    if lines.len() == 0 {
        assert(lines + end == end);
        assert(end.skip(1) == seq![nothing]);
        reveal_with_fuel(glued, 2);
        assert(nothing + feed + nothing == feed);
    } else {
        let line = lines[0];
        let others = lines.skip(1);
        let rest = glued(others + end, feed);
        let m = line.len() as int;
        assert forall|i: int| 0 <= i < others.len() implies is_header_line(
            #[trigger] others[i],
        ) by {
            assert(others[i] == lines[i + 1]);
        }
        lemma_first_empty_line(others);
        assert((lines + end).skip(1) == others + end);
        assert(text == line + feed + rest);
        assert(is_header_line(line));
        assert forall|j: int| 0 <= j < m - 1 implies !(line[j] == '\r' && #[trigger] line[j + 1]
            == '\n') by {
            if line[j] == '\r' && line[j + 1] == '\n' {
                assert(line.subrange(j, j + 2) =~= feed);
                assert(matches_at(line, feed, j));
            }
        }
        assert(forall|j: int| 0 <= j < m ==> text[j] == line[j]);
        assert(text[m] == '\r' && text[m + 1] == '\n');
        assert(forall|j: int| 0 <= j < rest.len() ==> text[m + 2 + j] == #[trigger] rest[j]);
        if m >= 2 {
            assert(!(line[0] == '\r' && line[0int + 1] == '\n'));
        }
        let n = text.len() as int;
        let k = rest.len() as int;
        if others.len() == 0 {
            assert(text[m + 2] == rest[0] && text[m + 3] == rest[1]);
        } else {
            assert(text[m + 2 + (k - 4)] == rest[k - 4]);
            assert(text[m + 2 + (k - 3)] == rest[k - 3]);
            assert(text[m + 2 + (k - 2)] == rest[k - 2]);
            assert(text[m + 2 + (k - 1)] == rest[k - 1]);
        }
        assert forall|j: int| 0 <= j && j + 4 < text.len() implies !(#[trigger] is_empty_line(
            text,
            j,
        )) by {
            if is_empty_line(text, j) {
                if j < m - 1 {
                    assert(!(line[j] == '\r' && line[j + 1] == '\n'));
                } else if j == m {
                    assert(text[m + 2] == rest[0] && text[m + 3] == rest[1]);
                } else if j >= m + 2 {
                    let i = j - m - 2;
                    assert(text[m + 2 + i] == rest[i] && text[m + 2 + (i + 1)] == rest[i + 1]
                        && text[m + 2 + (i + 2)] == rest[i + 2] && text[m + 2 + (i + 3)]
                        == rest[i + 3]);
                    assert(is_empty_line(rest, i));
                }
            }
        }
    }
}

/// Lines that are not empty, followed by an empty line, are a header.
pub proof fn lemma_lines_are_header(full: Seq<Seq<char>>)
    requires
        full.len() > 0,
        forall|i: int| 0 <= i < full.len() ==> is_header_line(#[trigger] full[i]),
    ensures
        is_header(glued(full + seq![Seq::<char>::empty(), Seq::<char>::empty()], "\r\n"@)),
{
    let nothing = Seq::<char>::empty();
    let header = glued(full + seq![nothing, nothing], "\r\n"@);
    lemma_first_empty_line(full);
    reveal_strlit("\r\n\r\n");
    let n = header.len() as int;
    assert(is_empty_line(header, n - 4));
    assert(header.subrange(n - 4, n) =~= "\r\n\r\n"@);
    assert forall|k: int| 0 <= k < n implies !ends_header(#[trigger] header.take(k)) by {
        let part = header.take(k);
        if ends_header(part) {
            let tail = part.subrange(k - 4, k);
            assert(tail[0] == header[k - 4] && tail[1] == header[k - 3] && tail[2] == header[k - 2]
                && tail[3] == header[k - 1]);
            assert(is_empty_line(header, k - 4));
        }
    }
}

/// Any request can be asked for: what says it is a header, and when it is read line by line
/// the request is received.
pub proof fn law_request_received(site: Site, request: Request, version: Seq<char>)
    requires
        is_sayable(request),
        is_free_of(version, "\r\n"@),
    ensures
        ({
            let header = glued(lines_for(request, version), "\r\n"@);
            &&& is_header(header)
            &&& run(site, PhaseView::Idle, seq![EventView::Begin] + reads(cut(header))) == (
                PhaseView::Received(Ok(request)),
                read_lines(cut(header).len()).push(ActionView::Respond),
            )
        }),
{
    let nothing = Seq::<char>::empty();
    let lines = lines_for(request, version);
    let header = glued(lines, "\r\n"@);
    let full = lines.take(lines.len() - 2);
    law_header_read_back(request, version);
    lemma_lines_for(request, version);
    assert(full + seq![nothing, nothing] =~= lines);
    assert forall|i: int| 0 <= i < full.len() implies is_header_line(#[trigger] full[i]) by {
        assert(full[i] == lines[i]);
    }
    lemma_lines_are_header(full);
    if unknown_method(header) is Some {
        law_unknown_method_is_malformed(header);
    }
    law_header_read_by_lines(site, header);
}

} // verus!
