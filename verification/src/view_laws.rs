//! What the values that callers hand over and get back stand for: nothing is lost or changed.

use vstd::prelude::*;

use crate::error::HandleError;
use crate::handler::{Action, ActionView, Event, EventView, Step, StepView};
use crate::request::{parsed, Request, RequestHeader};
use crate::text::texts;

verus! {

/// A step asks for exactly the bytes or the size that it holds.
pub proof fn law_steps_as_they_are(step: Step)
    ensures
        match step {
            Step::Write(bytes) => step@ == StepView::Write(bytes@),
            Step::Flush => step@ == StepView::Flush,
            Step::CopyBody(limit) => step@ == StepView::CopyBody(limit),
            Step::CopyFile => step@ == StepView::CopyFile,
        },
{
}

/// An event tells exactly what it holds.
pub proof fn law_events_as_they_are(event: Event)
    ensures
        match event {
            Event::Begin => event@ == EventView::Begin,
            Event::Line(Ok(line)) => event@ == EventView::Line(Ok(line@)),
            Event::Line(Err(e)) => event@ == EventView::Line(Err(e)),
            Event::Respond => event@ == EventView::Respond,
            Event::Opened(opened) => event@ == EventView::Opened(opened),
            Event::Kind(is_file) => event@ == EventView::Kind(is_file),
            Event::Length(size) => event@ == EventView::Length(size),
            Event::Sent(result) => event@ == EventView::Sent(result),
        },
{
}

/// An action asks for exactly what it holds: the path to the last character, the step, and the
/// outcome.
pub proof fn law_actions_as_they_are(action: Action)
    ensures
        match action {
            Action::ReadLine => action@ == ActionView::ReadLine,
            Action::Respond => action@ == ActionView::Respond,
            Action::OpenFile(path) => action@ == ActionView::OpenFile(path@),
            Action::CheckKind => action@ == ActionView::CheckKind,
            Action::CheckLength => action@ == ActionView::CheckLength,
            Action::Send(step) => action@ == ActionView::Send(step@),
            Action::Done(outcome) => action@ == ActionView::Done(outcome),
        },
{
}

/// A header that was read holds exactly what it says, field by field.
pub proof fn law_headers_as_they_are(header: RequestHeader, e: HandleError)
    ensures
        header@.method == header.method,
        header@.uri == header.uri@,
        header.user_agent matches Some(text) ==> header@.user_agent == Some(text@),
        header.user_agent is None ==> header@.user_agent is None,
        header.host matches Some(text) ==> header@.host == Some(text@),
        header.host is None ==> header@.host is None,
        header@.content_length == header.content_length,
        header@.connection == header.connection,
        parsed(Ok(header)) == Ok::<Request, HandleError>(header@),
        parsed(Err(e)) == Err::<Request, HandleError>(e),
{
}

/// A list of slices stands for the texts of the slices, in order.
pub proof fn law_texts_as_they_are(list: Seq<&[char]>)
    ensures
        texts(list).len() == list.len(),
        forall|i: int| 0 <= i < list.len() ==> #[trigger] texts(list)[i] == list[i]@,
{
}

} // verus!
