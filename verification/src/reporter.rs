//! Progress reporting: the events that operations emit, and what a reporter makes of
//! each of its calls.
use crate::text::same;
use vstd::prelude::*;
use vstd::string::*;

verus! {

/// A structured progress event, as it goes to the activity view of a client.
#[derive(Debug)]
pub struct JobEvent {
    /// `"log"`, `"progress"`, `"done"`, `"error"`, `"cancelled"` or `"waiting"`.
    pub kind: String,
    pub message: String,
    pub value: Option<u64>,
    pub total: Option<u64>,
    pub path: Option<String>,
}

/// What an event says, as values.
pub struct EventView {
    pub kind: Seq<char>,
    pub message: Seq<char>,
    pub value: Option<u64>,
    pub total: Option<u64>,
    pub path: Option<Seq<char>>,
}

/// The view of a string that may be absent.
pub open spec fn opt_text(s: Option<String>) -> Option<Seq<char>> {
    match s {
        Some(s) => Some(s@),
        None => None,
    }
}

pub fn clone_opt(s: &Option<String>) -> (r: Option<String>)
    ensures
        r == *s,
{
    match s {
        Some(s) => Some(s.clone()),
        None => None,
    }
}

impl View for JobEvent {
    type V = EventView;

    open spec fn view(&self) -> EventView {
        EventView {
            kind: self.kind@,
            message: self.message@,
            value: self.value,
            total: self.total,
            path: opt_text(self.path),
        }
    }
}

impl Clone for JobEvent {
    fn clone(&self) -> (r: Self)
        ensures
            r == *self,
    {
        JobEvent {
            kind: self.kind.clone(),
            message: self.message.clone(),
            value: self.value,
            total: self.total,
            path: clone_opt(&self.path),
        }
    }
}

/// What an operation reports.
pub enum Report {
    /// Informational, intermediate.
    Log { message: String },
    Progress { current: u64, total: u64, message: String },
    /// Final completion.
    Done { message: String },
    /// Final completion with a result file, so that a client can offer to show it.
    DoneWithPath { message: String, path: String },
    Error { message: String },
    /// A clean stop, distinct from finished and from failed.
    Cancelled { message: String },
    /// Not final: a network job lost its connection and will be retried.
    Waiting { message: String },
}

/// The event that a report becomes. The completion of a step of a larger job, whose
/// `mute_done` is set, is a log line: it does not end the job.
pub open spec fn event_for(report: Report, mute_done: bool) -> EventView {
    let plain = |kind: Seq<char>, message: Seq<char>|
        EventView { kind, message, value: None, total: None, path: None };
    match report {
        Report::Log { message } => plain("log"@, message@),
        Report::Progress { current, total, message } => EventView {
            kind: "progress"@,
            message: message@,
            value: Some(current),
            total: Some(total),
            path: None,
        },
        Report::Done { message } => if mute_done {
            plain("log"@, message@)
        } else {
            EventView {
                kind: "done"@,
                message: message@,
                value: Some(100),
                total: Some(100),
                path: None,
            }
        },
        Report::DoneWithPath { message, path } => if mute_done {
            plain("log"@, message@)
        } else {
            EventView {
                kind: "done"@,
                message: message@,
                value: Some(100),
                total: Some(100),
                path: Some(path@),
            }
        },
        Report::Error { message } => plain("error"@, message@),
        Report::Cancelled { message } => plain("cancelled"@, message@),
        Report::Waiting { message } => plain("waiting"@, message@),
    }
}

fn plain_event(kind: &str, message: String) -> (ev: JobEvent)
    ensures
        ev@ == (EventView { kind: kind@, message: message@, value: None, total: None, path: None }),
{
    JobEvent { kind: kind.to_owned(), message, value: None, total: None, path: None }
}

/// Turns a report into the event that goes out. See [`event_for`].
pub fn make_event(report: Report, mute_done: bool) -> (ev: JobEvent)
    ensures
        ev@ == event_for(report, mute_done),
{
    match report {
        Report::Log { message } => plain_event("log", message),
        Report::Progress { current, total, message } => JobEvent {
            kind: "progress".to_owned(),
            message,
            value: Some(current),
            total: Some(total),
            path: None,
        },
        Report::Done { message } => if mute_done {
            plain_event("log", message)
        } else {
            JobEvent {
                kind: "done".to_owned(),
                message,
                value: Some(100),
                total: Some(100),
                path: None,
            }
        },
        Report::DoneWithPath { message, path } => if mute_done {
            plain_event("log", message)
        } else {
            JobEvent {
                kind: "done".to_owned(),
                message,
                value: Some(100),
                total: Some(100),
                path: Some(path),
            }
        },
        Report::Error { message } => plain_event("error", message),
        Report::Cancelled { message } => plain_event("cancelled", message),
        Report::Waiting { message } => plain_event("waiting", message),
    }
}

/// An event after which nothing more comes for the attempt that sent it.
pub open spec fn is_final(ev: EventView) -> bool {
    ev.kind == "done"@ || ev.kind == "error"@ || ev.kind == "cancelled"@
}

pub fn final_event(ev: &JobEvent) -> (b: bool)
    ensures
        b == is_final(ev@),
{
    same(ev.kind.as_str(), "done") || same(ev.kind.as_str(), "error") || same(
        ev.kind.as_str(),
        "cancelled",
    )
}

/// No step of a larger job ends that job by completing.
pub proof fn law_steps_do_not_end_the_job(report: Report)
    requires
        report is Done || report is DoneWithPath,
    ensures
        !is_final(event_for(report, true)),
{
    reveal_strlit("log");
    reveal_strlit("done");
    reveal_strlit("error");
    reveal_strlit("cancelled");
    assert("log"@.len() == 3);
    assert("done"@.len() == 4);
    assert("error"@.len() == 5);
    assert("cancelled"@.len() == 9);
}

/// What a report says goes out as it is: its message always, its numbers with progress, its
/// file with the end.
pub proof fn law_reports_go_out_as_they_are(report: Report, mute_done: bool)
    ensures
        match report {
            Report::Log { message } => event_for(report, mute_done).kind == "log"@ && event_for(
                report,
                mute_done,
            ).message == message@ && event_for(report, mute_done).value is None,
            Report::Progress { current, total, message } => event_for(report, mute_done).kind
                == "progress"@ && event_for(report, mute_done).message == message@ && event_for(
                report,
                mute_done,
            ).value == Some(current) && event_for(report, mute_done).total == Some(total),
            Report::Done { message } => event_for(report, mute_done).message == message@ && (
            !mute_done ==> event_for(report, mute_done).kind == "done"@ && event_for(
                report,
                mute_done,
            ).path is None),
            Report::DoneWithPath { message, path } => event_for(report, mute_done).message
                == message@ && (!mute_done ==> event_for(report, mute_done).kind == "done"@
                && event_for(report, mute_done).path == Some(path@)),
            Report::Error { message } => event_for(report, mute_done).kind == "error"@ && event_for(
                report,
                mute_done,
            ).message == message@,
            Report::Cancelled { message } => event_for(report, mute_done).kind == "cancelled"@
                && event_for(report, mute_done).message == message@,
            Report::Waiting { message } => event_for(report, mute_done).kind == "waiting"@
                && event_for(report, mute_done).message == message@,
        },
{
}

/// A job ends with its completion, an error or a cancellation, and with nothing else.
pub proof fn law_what_ends_a_job(report: Report)
    ensures
        is_final(event_for(report, false)) <==> report is Done || report is DoneWithPath || report
            is Error || report is Cancelled,
{
    reveal_strlit("log");
    reveal_strlit("progress");
    reveal_strlit("waiting");
    reveal_strlit("done");
    reveal_strlit("error");
    reveal_strlit("cancelled");
    assert("log"@.len() == 3 && "progress"@.len() == 8 && "waiting"@.len() == 7);
    assert("done"@.len() == 4 && "error"@.len() == 5 && "cancelled"@.len() == 9);
}

/// What is told of an event is what it holds.
pub proof fn law_events_hold_what_is_told(e: JobEvent)
    ensures
        e@.kind == e.kind@,
        e@.message == e.message@,
        e@.value == e.value,
        e@.total == e.total,
        e.path matches Some(p) ==> e@.path == Some(p@),
        e.path is None ==> e@.path is None,
{
}

} // verus!
