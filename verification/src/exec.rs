//! What a supervised process is seen to do: the lines it writes and the way
//! it ends, as an ordered stream of events.

use vstd::prelude::*;
use vstd::string::StringExecFns;
use crate::store::{OutputRecord, OutputRecordView};
use crate::text::{decimal, decimal_text, decode_lossy, lossy_text, strip_newline, without_newline};
use crate::time::Timestamp;

verus! {

/// The exit code reported when the process did not leave one.
pub const UNKNOWN_EXIT: i32 = 0x7fff_ffff;

/// How a process ended.
#[derive(Debug)]
pub struct ExitDetails {
    pub duration_ms: u64,
    pub when: Timestamp,
    pub code: i32,
}

/// One line of output, or one message about the run.
#[derive(Debug)]
pub struct OutputDetails {
    stream: String,
    msg: String,
    time: Timestamp,
}

impl View for OutputDetails {
    type V = OutputRecordView;

    closed spec fn view(&self) -> OutputRecordView {
        OutputRecordView { time: self.time, stream: self.stream@, msg: self.msg@ }
    }
}

impl OutputDetails {
    /// The record that reports this line to the collector.
    pub fn to_record(&self) -> (r: OutputRecord)
        ensures
            r@ == self@,
    {
        OutputRecord { stream: self.stream.clone(), msg: self.msg.clone(), time: self.time }
    }
}

/// An event in the life of a supervised process.
#[derive(Debug)]
pub enum Activity {
    Output(OutputDetails),
    Exit(ExitDetails),
    Complete,
}

/// What an `Activity` holds.
pub enum ActivityView {
    Output(OutputRecordView),
    Exit(ExitDetails),
    Complete,
}

impl View for Activity {
    type V = ActivityView;

    open spec fn view(&self) -> ActivityView {
        match self {
            Activity::Output(o) => ActivityView::Output(o@),
            Activity::Exit(e) => ActivityView::Exit(*e),
            Activity::Complete => ActivityView::Complete,
        }
    }
}

/// A duration in milliseconds as it is kept in 64 bits: its low 64 bits.
pub open spec fn millis_u64(elapsed_ms: u128) -> u64 {
    elapsed_ms as u64
}

/// The message that reports a line of `stream`.
pub open spec fn msg_spec(stream: Seq<char>, msg: Seq<char>, now: Timestamp) -> ActivityView {
    ActivityView::Output(OutputRecordView { time: now, stream: stream, msg: msg })
}

/// The message that reports a failure of the supervisor itself.
pub open spec fn err_spec(msg: Seq<char>, now: Timestamp) -> ActivityView {
    msg_spec("error"@, msg, now)
}

/// The event that reports how the process ended.
pub open spec fn exit_spec(elapsed_ms: u128, now: Timestamp, code: i32) -> ActivityView {
    ActivityView::Exit(ExitDetails { duration_ms: millis_u64(elapsed_ms), when: now, code: code })
}

impl Activity {
    /// The event that reports how the process ended, `elapsed_ms`
    /// milliseconds after it was started.
    pub fn exit(elapsed_ms: u128, now: Timestamp, code: i32) -> (a: Activity)
        ensures
            a@ == exit_spec(elapsed_ms, now, code),
    {
        Activity::Exit(
            ExitDetails { duration_ms: #[verifier::truncate] (elapsed_ms as u64), when: now, code },
        )
    }

    /// The event that reports one line of `stream`.
    pub fn msg(stream: &str, msg: &str, now: Timestamp) -> (a: Activity)
        ensures
            a@ == msg_spec(stream@, msg@, now),
    {
        Activity::Output(
            OutputDetails { stream: stream.to_owned(), msg: msg.to_owned(), time: now },
        )
    }

    /// The event that reports a failure of the supervisor itself.
    pub fn err(msg: &str, now: Timestamp) -> (a: Activity)
        ensures
            a@ == err_spec(msg@, now),
    {
        Activity::msg("error", msg, now)
    }
}

/// What one attempt to read a line from a stream of the process gave.
#[derive(Debug)]
pub enum ReadOutcome {
    /// The stream has ended.
    Eof,
    /// The bytes of one line, with the line feed that ends it if there was
    /// one.
    Line(Vec<u8>),
    /// Reading failed; the text describes why.
    Failed(String),
}

/// What a reader does after one attempt to read.
#[derive(Debug)]
pub struct ReaderStep {
    /// The event to hand on, if any.
    pub emit: Option<Activity>,
    /// Whether the reader goes on reading.
    pub again: bool,
}

/// The message of a line: its bytes decoded leniently, without the line
/// feed that ends it.
pub open spec fn line_text(bytes: Seq<u8>) -> Seq<char> {
    without_newline(lossy_text(bytes))
}

/// The complaint about a stream that could not be read.
pub open spec fn read_failure_text(name: Seq<char>, detail: Seq<char>) -> Seq<char> {
    "failed to read "@ + name + ": "@ + detail
}

/// The event that one attempt to read gives rise to, if any.
pub open spec fn reader_emit(name: Seq<char>, outcome: ReadOutcome, now: Timestamp) -> Option<
    ActivityView,
> {
    match outcome {
        ReadOutcome::Eof => None,
        ReadOutcome::Line(bytes) => Some(msg_spec(name, line_text(bytes@), now)),
        ReadOutcome::Failed(detail) => Some(err_spec(read_failure_text(name, detail@), now)),
    }
}

/// The message of one line read from the process.
pub fn decode_line(bytes: &Vec<u8>) -> (s: String)
    ensures
        s@ == line_text(bytes@),
{
    strip_newline(decode_lossy(bytes))
}

/// One step of the reader of the stream called `name`: a line becomes an
/// output event and the reader goes on; the end of the stream stops it
/// silently; a failure is reported once, as an error message, and stops it.
pub fn reader_step(name: &str, outcome: ReadOutcome, now: Timestamp) -> (step: ReaderStep)
    ensures
        step.again == (outcome is Line),
        match reader_emit(name@, outcome, now) {
            Some(a) => step.emit is Some && step.emit->0@ == a,
            None => step.emit is None,
        },
        step.emit matches Some(a) ==> a@ is Output,
        step.emit is None <==> outcome is Eof,
{
    match outcome {
        ReadOutcome::Eof => ReaderStep { emit: None, again: false },
        ReadOutcome::Line(bytes) => {
            let text = decode_line(&bytes);
            ReaderStep { emit: Some(Activity::msg(name, text.as_str(), now)), again: true }
        },
        ReadOutcome::Failed(detail) => {
            let mut text = String::from_str("failed to read ");
            text.append(name);
            text.append(": ");
            text.append(detail.as_str());
            ReaderStep { emit: Some(Activity::err(text.as_str(), now)), again: false }
        },
    }
}

/// What waiting for the process gave.
#[derive(Debug)]
pub enum WaitOutcome {
    /// Waiting failed; the text describes why.
    Failed(String),
    /// The process ended, with an exit code unless a signal ended it.
    Exited { code: Option<i32>, signal: Option<i32> },
}

/// The exit code to report.
pub open spec fn exit_code(code: Option<i32>) -> i32 {
    match code {
        Some(c) => c,
        None => UNKNOWN_EXIT,
    }
}

/// The events that close the stream, in the order they are sent.
pub open spec fn exit_events_spec(wait: WaitOutcome, elapsed_ms: u128, now: Timestamp) -> Seq<
    ActivityView,
> {
    match wait {
        WaitOutcome::Failed(detail) => seq![
            err_spec("child wait error: "@ + detail@, now),
            exit_spec(elapsed_ms, now, UNKNOWN_EXIT),
            ActivityView::Complete,
        ],
        WaitOutcome::Exited { code, signal: Some(sig) } => seq![
            err_spec("child terminated by signal "@ + decimal_text(sig as int), now),
            exit_spec(elapsed_ms, now, exit_code(code)),
            ActivityView::Complete,
        ],
        WaitOutcome::Exited { code, signal: None } => seq![
            exit_spec(elapsed_ms, now, exit_code(code)),
            ActivityView::Complete,
        ],
    }
}

/// What a list of events holds.
pub open spec fn activities_view(v: Seq<Activity>) -> Seq<ActivityView> {
    Seq::new(v.len(), |i: int| v[i]@)
}

/// The events that close the stream once both readers are done and the
/// process has been waited for: a message if waiting failed or a signal ended
/// the process, then exactly one exit event, then the end marker.
pub fn exit_events(wait: WaitOutcome, elapsed_ms: u128, now: Timestamp) -> (events: Vec<Activity>)
    ensures
        activities_view(events@) == exit_events_spec(wait, elapsed_ms, now),
        events.len() >= 2,
        events@[events.len() - 1]@ is Complete,
        events@[events.len() - 2]@ is Exit,
        forall|i: int| 0 <= i < events.len() - 2 ==> events@[i]@ is Output,
{
    let mut events: Vec<Activity> = Vec::new();
    match wait {
        WaitOutcome::Failed(detail) => {
            let mut text = String::from_str("child wait error: ");
            text.append(detail.as_str());
            events.push(Activity::err(text.as_str(), now));
            events.push(Activity::exit(elapsed_ms, now, UNKNOWN_EXIT));
        },
        WaitOutcome::Exited { code, signal } => {
            match signal {
                Some(sig) => {
                    let mut text = String::from_str("child terminated by signal ");
                    let number = decimal(sig as i64);
                    text.append(number.as_str());
                    events.push(Activity::err(text.as_str(), now));
                },
                None => {},
            }
            let code = match code {
                Some(c) => c,
                None => UNKNOWN_EXIT,
            };
            events.push(Activity::exit(elapsed_ms, now, code));
        },
    }
    events.push(Activity::Complete);
    assert(activities_view(events@) =~= exit_events_spec(wait, elapsed_ms, now));
    events
}

} // verus!
