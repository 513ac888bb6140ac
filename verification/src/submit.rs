//! The reporting client: what is sent to the collector for each event of a
//! supervised run, and what is done when sending fails.

use vstd::prelude::*;
use vstd::string::StringExecFns;
use crate::common::genkey;
use crate::exec::{Activity, ActivityView};
use crate::text::texts;
use crate::time::Timestamp;
use crate::wire::{ReportId, ReportIdView, Request, RequestView};

verus! {

/// Milliseconds to wait before a report is sent again.
pub const REPORT_RETRY_MS: u64 = 1000;

/// The local configuration: where the collector is, and who this host is to
/// it.
#[derive(Debug)]
pub struct ConfigFile {
    pub baseurl: String,
    pub host: String,
    pub key: String,
}

/// What a `ConfigFile` holds.
pub struct ConfigFileView {
    pub baseurl: Seq<char>,
    pub host: Seq<char>,
    pub key: Seq<char>,
}

impl View for ConfigFile {
    type V = ConfigFileView;

    open spec fn view(&self) -> ConfigFileView {
        ConfigFileView { baseurl: self.baseurl@, host: self.host@, key: self.key@ }
    }
}

/// The request that reports `activity`, if it is to be reported: a line of
/// output or the end of the process. The end marker is not reported.
pub open spec fn request_for(id: ReportIdView, activity: ActivityView) -> Option<RequestView> {
    match activity {
        ActivityView::Output(record) => Some(RequestView::Output { id: id, record: record }),
        ActivityView::Exit(e) => Some(
            RequestView::Finish {
                id: id,
                end_time: e.when,
                duration_millis: e.duration_ms,
                exit_status: e.code,
            },
        ),
        ActivityView::Complete => None,
    }
}

} // verus!

verus! {

/// Why a request did not get through.
#[derive(Debug)]
pub enum Failure {
    /// The request or its answer was lost on the way; the text describes
    /// how.
    Transport(String),
    /// The collector answered with a status that is no success.
    Status { status: u16, detail: String },
}

/// What a `Failure` holds.
pub enum FailureView {
    Transport(Seq<char>),
    Status { status: u16, detail: Seq<char> },
}

impl View for Failure {
    type V = FailureView;

    open spec fn view(&self) -> FailureView {
        match self {
            Failure::Transport(e) => FailureView::Transport(e@),
            Failure::Status { status, detail } => FailureView::Status {
                status: *status,
                detail: detail@,
            },
        }
    }
}

/// Whether a status turns the asker away for who it is.
pub open spec fn is_auth_status(status: u16) -> bool {
    status == 401 || status == 403
}

/// Whether a status blames the request.
pub open spec fn is_client_status(status: u16) -> bool {
    400 <= status <= 499
}

/// Whether a report that failed is worth sending again: not where the
/// collector has found a collision or a malformed request, which no
/// repetition can mend. A failure on the way, a fault of the collector and
/// a doubt about who is asking pass with time.
pub open spec fn report_retryable(f: FailureView) -> bool {
    match f {
        FailureView::Transport(_) => true,
        FailureView::Status { status, .. } => !is_client_status(status) || is_auth_status(status),
    }
}

/// Whether an enrolment or a ping that failed is worth sending again: not
/// where the collector blames the request or the asker.
pub open spec fn command_retryable(f: FailureView) -> bool {
    match f {
        FailureView::Transport(_) => true,
        FailureView::Status { status, .. } => !is_client_status(status),
    }
}

/// The words for a failure.
pub open spec fn failure_text(f: FailureView) -> Seq<char> {
    match f {
        FailureView::Transport(e) => e,
        FailureView::Status { detail, .. } => detail,
    }
}

impl Failure {
    /// Whether a report that failed in this way is worth sending again.
    pub fn retry_report(&self) -> (r: bool)
        ensures
            r == report_retryable(self@),
    {
        match self {
            Failure::Transport(_) => true,
            Failure::Status { status, .. } => !(400 <= *status && *status <= 499) || *status == 401
                || *status == 403,
        }
    }

    /// Whether an enrolment or a ping that failed in this way is worth
    /// sending again.
    pub fn retry_command(&self) -> (r: bool)
        ensures
            r == command_retryable(self@),
    {
        match self {
            Failure::Transport(_) => true,
            Failure::Status { status, .. } => !(400 <= *status && *status <= 499),
        }
    }

    /// The words for this failure.
    pub fn text(&self) -> (r: &str)
        ensures
            r@ == failure_text(self@),
    {
        match self {
            Failure::Transport(e) => e.as_str(),
            Failure::Status { detail, .. } => detail.as_str(),
        }
    }
}

/// Where the reporting of a run stands.
#[derive(Debug)]
pub enum Phase {
    /// A request has been handed out and is not yet known to have arrived.
    Sending(Request),
    /// The last request has arrived; the next event of the run is awaited.
    Waiting,
    /// The end marker has been taken: nothing is left to report.
    Finished,
    /// The stream of events broke off before its end marker.
    Lost,
    /// The collector has turned the request down for good.
    Refused(Request),
}

/// What a `Phase` holds.
pub enum PhaseView {
    Sending(RequestView),
    Waiting,
    Finished,
    Lost,
    Refused(RequestView),
}

impl View for Phase {
    type V = PhaseView;

    open spec fn view(&self) -> PhaseView {
        match self {
            Phase::Sending(r) => PhaseView::Sending(r@),
            Phase::Waiting => PhaseView::Waiting,
            Phase::Finished => PhaseView::Finished,
            Phase::Lost => PhaseView::Lost,
            Phase::Refused(r) => PhaseView::Refused(r@),
        }
    }
}

/// What happened since the last step.
#[derive(Debug)]
pub enum Event {
    /// The collector has taken the request.
    Delivered,
    /// The request did not get through.
    Failed(Failure),
    /// The supervised run has produced its next event.
    Activity(Activity),
    /// The stream of events has ended without an end marker.
    Closed,
}

/// What an `Event` holds.
pub enum EventView {
    Delivered,
    Failed(FailureView),
    Activity(ActivityView),
    Closed,
}

impl View for Event {
    type V = EventView;

    open spec fn view(&self) -> EventView {
        match self {
            Event::Delivered => EventView::Delivered,
            Event::Failed(e) => EventView::Failed(e@),
            Event::Activity(a) => EventView::Activity(a@),
            Event::Closed => EventView::Closed,
        }
    }
}

/// What is to be done next.
#[derive(Debug)]
pub enum Action {
    /// Send the request that is pending.
    Send,
    /// Print the complaint, if there is one, wait, then send the pending
    /// request again.
    Retry { delay_ms: u64, complaint: Option<String> },
    /// Take the next event of the run.
    Receive,
    /// Stop: the run has been reported in full.
    Finished,
    /// Stop: the events of the run were lost.
    Lost,
    /// Stop: the collector will not take the request; the text says why.
    Refused(String),
}

/// What an `Action` holds.
pub enum ActionView {
    Send,
    Retry { delay_ms: u64, complaint: Option<Seq<char>> },
    Receive,
    Finished,
    Lost,
    Refused(Seq<char>),
}

impl View for Action {
    type V = ActionView;

    open spec fn view(&self) -> ActionView {
        match self {
            Action::Send => ActionView::Send,
            Action::Retry { delay_ms, complaint } => ActionView::Retry {
                delay_ms: *delay_ms,
                complaint: match complaint {
                    Some(c) => Some(c@),
                    None => None,
                },
            },
            Action::Receive => ActionView::Receive,
            Action::Finished => ActionView::Finished,
            Action::Lost => ActionView::Lost,
            Action::Refused(e) => ActionView::Refused(e@),
        }
    }
}

/// The state of the reporting client for one run.
#[derive(Debug)]
pub struct Reporter {
    id: ReportId,
    silent: bool,
    phase: Phase,
}

/// What a `Reporter` holds.
pub struct ReporterView {
    pub id: ReportIdView,
    pub silent: bool,
    pub phase: PhaseView,
}

impl View for Reporter {
    type V = ReporterView;

    closed spec fn view(&self) -> ReporterView {
        ReporterView { id: self.id@, silent: self.silent, phase: self.phase@ }
    }
}

/// The complaint about a request that did not get through.
pub open spec fn complaint_text(detail: Seq<char>) -> Seq<char> {
    "ERROR: "@ + detail
}

/// What there is to do in a phase when nothing has happened.
pub open spec fn expected(phase: PhaseView) -> ActionView {
    match phase {
        PhaseView::Sending(_) => ActionView::Send,
        PhaseView::Waiting => ActionView::Receive,
        PhaseView::Finished => ActionView::Finished,
        PhaseView::Lost => ActionView::Lost,
        PhaseView::Refused(_) => ActionView::Refused("refused"@),
    }
}

/// The state after `event`.
pub open spec fn next_state(s: ReporterView, event: EventView) -> ReporterView {
    match (s.phase, event) {
        (PhaseView::Sending(_), EventView::Delivered) => ReporterView {
            phase: PhaseView::Waiting,
            ..s
        },
        (PhaseView::Sending(r), EventView::Failed(f)) => if report_retryable(f) {
            s
        } else {
            ReporterView { phase: PhaseView::Refused(r), ..s }
        },
        (PhaseView::Waiting, EventView::Activity(a)) => match request_for(s.id, a) {
            Some(r) => ReporterView { phase: PhaseView::Sending(r), ..s },
            None => ReporterView { phase: PhaseView::Finished, ..s },
        },
        (PhaseView::Waiting, EventView::Closed) => ReporterView { phase: PhaseView::Lost, ..s },
        _ => s,
    }
}

/// What is to be done after `event`.
pub open spec fn next_action(s: ReporterView, event: EventView) -> ActionView {
    match (s.phase, event) {
        (PhaseView::Sending(_), EventView::Failed(f)) => if report_retryable(f) {
            ActionView::Retry {
                delay_ms: REPORT_RETRY_MS,
                complaint: if s.silent {
                    None
                } else {
                    Some(complaint_text(failure_text(f)))
                },
            }
        } else {
            ActionView::Refused(failure_text(f))
        },
        _ => expected(next_state(s, event).phase),
    }
}

impl Reporter {
    /// The client at the start of a run: the request that announces the run
    /// is pending, and is to be sent first.
    pub fn start(id: ReportId, script: &str, start_time: Timestamp, silent: bool) -> (r: Reporter)
        ensures
            r@.id == id@,
            r@.silent == silent,
            r@.phase == PhaseView::Sending(
                RequestView::Start { id: id@, script: script@, start_time: start_time },
            ),
    {
        let first = Request::Start { id: id.duplicate(), script: script.to_owned(), start_time };
        Reporter { id, silent, phase: Phase::Sending(first) }
    }

    /// The request that is pending, if any.
    pub fn request(&self) -> (r: Option<&Request>)
        ensures
            match self@.phase {
                PhaseView::Sending(v) => r is Some && r->0@ == v,
                _ => r is None,
            },
    {
        match &self.phase {
            Phase::Sending(r) => Some(r),
            _ => None,
        }
    }

    /// Whether the run has been reported in full.
    pub fn is_finished(&self) -> (r: bool)
        ensures
            r == (self@.phase is Finished),
    {
        match &self.phase {
            Phase::Finished => true,
            _ => false,
        }
    }

    /// Takes one event and says what to do next. A request that failed on
    /// the way stays pending and is sent again after a fixed delay; one that
    /// the collector will never take ends the reporting. The next event of
    /// the run is taken only once the pending request has arrived. An event
    /// that does not belong to the phase changes nothing.
    pub fn step(self, event: Event) -> (r: (Reporter, Action))
        ensures
            r.0@ == next_state(self@, event@),
            r.1@ == next_action(self@, event@),
    {
        let Reporter { id, silent, phase } = self;
        match phase {
            Phase::Sending(request) => match event {
                Event::Delivered => (Reporter { id, silent, phase: Phase::Waiting }, Action::Receive),
                Event::Failed(failure) => {
                    if failure.retry_report() {
                        let complaint = if silent {
                            None
                        } else {
                            let mut text = String::from_str("ERROR: ");
                            text.append(failure.text());
                            Some(text)
                        };
                        (
                            Reporter { id, silent, phase: Phase::Sending(request) },
                            Action::Retry { delay_ms: REPORT_RETRY_MS, complaint },
                        )
                    } else {
                        (
                            Reporter { id, silent, phase: Phase::Refused(request) },
                            Action::Refused(failure.text().to_owned()),
                        )
                    }
                },
                _ => (Reporter { id, silent, phase: Phase::Sending(request) }, Action::Send),
            },
            Phase::Waiting => match event {
                Event::Activity(activity) => match activity {
                    Activity::Output(o) => {
                        let request = Request::Output { id: id.duplicate(), record: o.to_record() };
                        (Reporter { id, silent, phase: Phase::Sending(request) }, Action::Send)
                    },
                    Activity::Exit(e) => {
                        let request = Request::Finish {
                            id: id.duplicate(),
                            end_time: e.when,
                            duration_millis: e.duration_ms,
                            exit_status: e.code,
                        };
                        (Reporter { id, silent, phase: Phase::Sending(request) }, Action::Send)
                    },
                    Activity::Complete => (
                        Reporter { id, silent, phase: Phase::Finished },
                        Action::Finished,
                    ),
                },
                Event::Closed => (Reporter { id, silent, phase: Phase::Lost }, Action::Lost),
                _ => (Reporter { id, silent, phase: Phase::Waiting }, Action::Receive),
            },
            Phase::Finished => (Reporter { id, silent, phase: Phase::Finished }, Action::Finished),
            Phase::Lost => (Reporter { id, silent, phase: Phase::Lost }, Action::Lost),
            Phase::Refused(request) => (
                Reporter { id, silent, phase: Phase::Refused(request) },
                Action::Refused(String::from_str("refused")),
            ),
        }
    }
}

} // verus!

verus! {

/// The state after a sequence of events.
pub open spec fn run(s: ReporterView, events: Seq<EventView>) -> ReporterView
    decreases events.len(),
{
    if events.len() == 0 {
        s
    } else {
        run(next_state(s, events[0]), events.drop_first())
    }
}

/// The request that the collector has not taken, as a sequence of at most
/// one: the one that is pending, or the one that was turned down.
pub open spec fn pending(phase: PhaseView) -> Seq<RequestView> {
    match phase {
        PhaseView::Sending(r) => seq![r],
        PhaseView::Refused(r) => seq![r],
        _ => Seq::empty(),
    }
}

/// The requests that the collector has taken in the course of `events`, in
/// the order in which it took them.
pub open spec fn delivered(s: ReporterView, events: Seq<EventView>) -> Seq<RequestView>
    decreases events.len(),
{
    if events.len() == 0 {
        Seq::empty()
    } else {
        let now = match (s.phase, events[0]) {
            (PhaseView::Sending(r), EventView::Delivered) => seq![r],
            _ => Seq::empty(),
        };
        now + delivered(next_state(s, events[0]), events.drop_first())
    }
}

/// The events of the run that the client has taken in the course of
/// `events`, in the order in which it took them.
pub open spec fn taken(s: ReporterView, events: Seq<EventView>) -> Seq<ActivityView>
    decreases events.len(),
{
    if events.len() == 0 {
        Seq::empty()
    } else {
        let now = match (s.phase, events[0]) {
            (PhaseView::Waiting, EventView::Activity(a)) => seq![a],
            _ => Seq::empty(),
        };
        now + taken(next_state(s, events[0]), events.drop_first())
    }
}

/// The requests that report a sequence of events of a run, one for each
/// event but the end marker, in the same order.
pub open spec fn reports(id: ReportIdView, activities: Seq<ActivityView>) -> Seq<RequestView>
    decreases activities.len(),
{
    if activities.len() == 0 {
        Seq::empty()
    } else {
        let first = match request_for(id, activities[0]) {
            Some(r) => seq![r],
            None => Seq::empty(),
        };
        first + reports(id, activities.drop_first())
    }
}

/// The client never reorders or drops what it reports: whatever events
/// arrive, and however often sending fails, the requests that the collector
/// has taken, followed by the one it has not, are the request that was
/// pending at the outset followed by the reports of the events taken since,
/// each once and in the order of the events.
pub proof fn lemma_reports_in_order(s: ReporterView, events: Seq<EventView>)
    ensures
        run(s, events).id == s.id,
        run(s, events).silent == s.silent,
        delivered(s, events) + pending(run(s, events).phase) == pending(s.phase) + reports(
            s.id,
            taken(s, events),
        ),
    decreases events.len(),
{
    if events.len() == 0 {
        assert(delivered(s, events) + pending(s.phase) =~= pending(s.phase) + reports(
            s.id,
            taken(s, events),
        ));
    } else {
        let next = next_state(s, events[0]);
        let rest = events.drop_first();
        lemma_reports_in_order(next, rest);
        match (s.phase, events[0]) {
            (PhaseView::Waiting, EventView::Activity(a)) => {
                let t = taken(s, events);
                assert(t =~= seq![a] + taken(next, rest));
                assert(t.drop_first() =~= taken(next, rest));
                assert(t[0] == a);
            },
            _ => {
                assert(taken(s, events) =~= taken(next, rest));
            },
        }
        assert(delivered(s, events) + pending(run(s, events).phase) =~= pending(s.phase) + reports(
            s.id,
            taken(s, events),
        ));
    }
}

/// Silence changes what is printed and nothing else: a silent client moves
/// through the same phases as a talkative one and is told to do the same,
/// except that its retries carry no complaint.
pub proof fn lemma_silence_only_mutes(s: ReporterView, event: EventView)
    ensures
        ({
            let quiet = ReporterView { silent: true, ..s };
            let loud = ReporterView { silent: false, ..s };
            &&& next_state(quiet, event).phase == next_state(loud, event).phase
            &&& next_state(quiet, event).id == next_state(loud, event).id
            &&& match (next_action(quiet, event), next_action(loud, event)) {
                (
                    ActionView::Retry { delay_ms: d1, complaint: c1 },
                    ActionView::Retry { delay_ms: d2, complaint: c2 },
                ) => d1 == d2 && c1 is None && c2 is Some,
                (a, b) => a == b,
            }
        }),
{
}

/// A request that failed on the way is still the pending one afterwards,
/// and is sent again; a collision or a malformed request is never sent
/// again.
pub proof fn lemma_failures(s: ReporterView, f: FailureView)
    requires
        s.phase is Sending,
    ensures
        report_retryable(f) ==> next_state(s, EventView::Failed(f)) == s && next_action(
            s,
            EventView::Failed(f),
        ) is Retry,
        !report_retryable(f) ==> next_state(s, EventView::Failed(f)).phase is Refused && next_action(
            s,
            EventView::Failed(f),
        ) is Refused,
        f is Transport ==> report_retryable(f),
        f matches FailureView::Status { status, .. } ==> (status == 409 || status == 400
            ==> !report_retryable(f)) && (status == 401 || status >= 500 ==> report_retryable(f)),
{
}

} // verus!

verus! {

/// Milliseconds to wait before an enrolment is sent again.
pub const ENROL_RETRY_MS: u64 = 1000;

/// Milliseconds to wait before a ping is sent again.
pub const PING_RETRY_MS: u64 = 5000;

/// Why a command of the client cannot go ahead.
#[derive(Debug)]
pub enum SubmitError {
    /// `exec` and `cron` need the name of a job.
    NoJobName,
    /// `exec` and `cron` need something to run.
    NoScript,
    /// `enrol` takes a host name and the address of the collector.
    WrongArguments,
    /// This host is already enrolled, under another name or elsewhere.
    ConflictingEnrolment,
}

/// The parts `from..` of `parts`, with a space between each two.
pub open spec fn joined(parts: Seq<Seq<char>>, from: int) -> Seq<char>
    decreases parts.len() - from,
{
    if from >= parts.len() {
        Seq::empty()
    } else if from == parts.len() - 1 {
        parts[from]
    } else {
        parts[from] + seq![' '] + joined(parts, from + 1)
    }
}

/// The parts `from..to` of `parts`, each followed by a space but the last
/// of all.
pub open spec fn joined_upto(parts: Seq<Seq<char>>, from: int, to: int) -> Seq<char>
    decreases to - from,
{
    if from >= to {
        Seq::empty()
    } else if to == parts.len() {
        joined_upto(parts, from, to - 1) + parts[to - 1]
    } else {
        joined_upto(parts, from, to - 1) + parts[to - 1] + seq![' ']
    }
}

proof fn lemma_joined_upto(parts: Seq<Seq<char>>, from: int, to: int)
    requires
        0 <= from <= to <= parts.len(),
    ensures
        joined(parts, from) == joined_upto(parts, from, to) + joined(parts, to),
    decreases to - from,
{
    if from == to {
        assert(joined(parts, from) =~= joined_upto(parts, from, to) + joined(parts, to));
    } else {
        lemma_joined_upto(parts, from, to - 1);
        assert(joined(parts, to - 1) =~= if to == parts.len() {
            parts[to - 1]
        } else {
            parts[to - 1] + seq![' '] + joined(parts, to)
        });
        assert(joined(parts, from) =~= joined_upto(parts, from, to) + joined(parts, to));
    }
}

/// The job and the script that the arguments of `exec` or `cron` name.
pub open spec fn job_and_script_spec(args: Seq<Seq<char>>) -> Result<
    (Seq<char>, Seq<char>),
    SubmitError,
> {
    if args.len() < 1 {
        Err(SubmitError::NoJobName)
    } else if joined(args, 1).len() == 0 {
        Err(SubmitError::NoScript)
    } else {
        Ok((args[0], joined(args, 1)))
    }
}

/// Splits the arguments of `exec` or `cron` into the name of the job and
/// the script: the remaining arguments with a space between each two.
pub fn job_and_script(args: &Vec<String>) -> (r: Result<(String, String), SubmitError>)
    ensures
        match job_and_script_spec(texts(args@)) {
            Ok((job, script)) => r is Ok && r->Ok_0.0@ == job && r->Ok_0.1@ == script,
            Err(e) => r == Err::<(String, String), SubmitError>(e),
        },
{
    if args.len() < 1 {
        return Err(SubmitError::NoJobName);
    }
    let ghost parts = texts(args@);
    let mut script = String::new();
    let mut i: usize = 1;
    while i < args.len()
        invariant
            1 <= i <= args.len(),
            parts == texts(args@),
            script@ == joined_upto(parts, 1, i as int),
        decreases args.len() - i,
    {
        script.append(args[i].as_str());
        if i + 1 < args.len() {
            script.append(" ");
            proof {
                reveal_strlit(" ");
                assert(" "@ =~= seq![' ']);
            }
        }
        i += 1;
    }
    proof {
        lemma_joined_upto(parts, 1, args.len() as int);
        assert(joined(parts, 1) =~= script@);
    }
    if script.as_str().unicode_len() == 0 {
        return Err(SubmitError::NoScript);
    }
    Ok((args[0].clone(), script))
}

/// The command that runs `script`: the shell, told to read it from its
/// argument.
pub fn shell_command(script: &str) -> (argv: Vec<String>)
    ensures
        texts(argv@) == seq!["/usr/bin/bash"@, "-c"@, script@],
{
    let mut argv: Vec<String> = Vec::new();
    argv.push(String::from_str("/usr/bin/bash"));
    argv.push(String::from_str("-c"));
    argv.push(script.to_owned());
    assert(texts(argv@) =~= seq!["/usr/bin/bash"@, "-c"@, script@]);
    argv
}

} // verus!

verus! {

/// The configuration to enrol with, and whether it is new and has yet to be
/// written down.
#[derive(Debug)]
pub struct Enrolment {
    pub config: ConfigFile,
    pub fresh: bool,
}

/// Settles the configuration that `enrol HOST URL` works with. A host that
/// is already configured may only enrol again under the same name with the
/// same collector, and keeps its key; a host that is not gets a fresh key of
/// the length the collector asks for.
pub fn enrol_config(existing: Option<ConfigFile>, args: &Vec<String>) -> (r: Result<
    Enrolment,
    SubmitError,
>)
    ensures
        args.len() != 2 ==> r == Err::<Enrolment, SubmitError>(SubmitError::WrongArguments),
        args.len() == 2 ==> match existing {
            Some(cf) => if cf@.host == args@[0]@ && cf@.baseurl == args@[1]@ {
                r is Ok && r->Ok_0.config@ == cf@ && !r->Ok_0.fresh
            } else {
                r == Err::<Enrolment, SubmitError>(SubmitError::ConflictingEnrolment)
            },
            None => {
                &&& r is Ok
                &&& r->Ok_0.fresh
                &&& r->Ok_0.config@.host == args@[0]@
                &&& r->Ok_0.config@.baseurl == args@[1]@
                &&& crate::names::key_ok_spec(r->Ok_0.config@.key)
            },
        },
{
    if args.len() != 2 {
        return Err(SubmitError::WrongArguments);
    }
    match existing {
        Some(cf) => {
            if args[0] != cf.host || args[1] != cf.baseurl {
                Err(SubmitError::ConflictingEnrolment)
            } else {
                Ok(Enrolment { config: cf, fresh: false })
            }
        },
        None => Ok(
            Enrolment {
                config: ConfigFile {
                    baseurl: args[1].clone(),
                    host: args[0].clone(),
                    key: genkey(crate::names::KEY_LENGTH),
                },
                fresh: true,
            },
        ),
    }
}

/// What a command does once the collector has answered, or has not.
#[derive(Debug)]
pub enum Reply {
    /// Print the message and end well.
    Done(String),
    /// Print the complaint, wait, and ask again.
    Retry { delay_ms: u64, complaint: String },
    /// End with the message as the error.
    Fail(String),
}

/// What a `Reply` holds.
pub enum ReplyView {
    Done(Seq<char>),
    Retry { delay_ms: u64, complaint: Seq<char> },
    Fail(Seq<char>),
}

impl View for Reply {
    type V = ReplyView;

    open spec fn view(&self) -> ReplyView {
        match self {
            Reply::Done(m) => ReplyView::Done(m@),
            Reply::Retry { delay_ms, complaint } => ReplyView::Retry {
                delay_ms: *delay_ms,
                complaint: complaint@,
            },
            Reply::Fail(m) => ReplyView::Fail(m@),
        }
    }
}

/// The complaint about a request that is going to be sent again.
pub open spec fn retry_text(detail: Seq<char>) -> Seq<char> {
    "other error; retrying: "@ + detail
}

fn retry(delay_ms: u64, detail: &str) -> (r: Reply)
    ensures
        r@ == (ReplyView::Retry { delay_ms: delay_ms, complaint: retry_text(detail@) }),
{
    let mut complaint = String::from_str("other error; retrying: ");
    complaint.append(detail);
    Reply::Retry { delay_ms, complaint }
}

/// The words that a command gives up with.
pub open spec fn giving_up_text(detail: Seq<char>) -> Seq<char> {
    "request error; giving up: "@ + detail
}

/// What a command does about a request that failed: it asks again after
/// `delay_ms`, unless the collector blames the request or the asker.
pub open spec fn failed_reply(f: FailureView, delay_ms: u64) -> ReplyView {
    if command_retryable(f) {
        ReplyView::Retry { delay_ms: delay_ms, complaint: retry_text(failure_text(f)) }
    } else {
        ReplyView::Fail(giving_up_text(failure_text(f)))
    }
}

fn failed(f: &Failure, delay_ms: u64) -> (r: Reply)
    ensures
        r@ == failed_reply(f@, delay_ms),
{
    if f.retry_command() {
        retry(delay_ms, f.text())
    } else {
        let mut m = String::from_str("request error; giving up: ");
        m.append(f.text());
        Reply::Fail(m)
    }
}

/// What `enrol` does with the outcome of one attempt: a failure on the way
/// or a fault of the collector is tried again after a second; a request
/// that the collector turns down ends the command.
pub fn enrol_reply(outcome: Result<(), Failure>) -> (r: Reply)
    ensures
        r@ == match outcome {
            Ok(_) => ReplyView::Done("ok"@),
            Err(f) => failed_reply(f@, ENROL_RETRY_MS),
        },
{
    match outcome {
        Ok(_) => Reply::Done(String::from_str("ok")),
        Err(f) => failed(&f, ENROL_RETRY_MS),
    }
}

/// What `ping` prints when the collector knows this host.
pub open spec fn ping_ok_text(host: Seq<char>) -> Seq<char> {
    "ok, host \""@ + host + "\""@
}

/// What `ping` fails with when the collector takes this host for another.
pub open spec fn ping_mismatch_text(remote: Seq<char>, local: Seq<char>) -> Seq<char> {
    "remote host "@ + remote + " != local host "@ + local
}

/// What `ping` does with the outcome of one attempt: the collector must
/// name this host as the configuration does. A failure on the way or a fault
/// of the collector is tried again after five seconds; a request that the
/// collector turns down ends the command.
pub fn ping_reply(config: &ConfigFile, outcome: Result<String, Failure>) -> (r: Reply)
    ensures
        r@ == match outcome {
            Ok(host) => if host@ == config@.host {
                ReplyView::Done(ping_ok_text(host@))
            } else {
                ReplyView::Fail(ping_mismatch_text(host@, config@.host))
            },
            Err(f) => failed_reply(f@, PING_RETRY_MS),
        },
{
    match outcome {
        Ok(host) => {
            if host != config.host {
                let mut m = String::from_str("remote host ");
                m.append(host.as_str());
                m.append(" != local host ");
                m.append(config.host.as_str());
                Reply::Fail(m)
            } else {
                let mut m = String::from_str("ok, host \"");
                m.append(host.as_str());
                m.append("\"");
                Reply::Done(m)
            }
        },
        Err(f) => failed(&f, PING_RETRY_MS),
    }
}

} // verus!
