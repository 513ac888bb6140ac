//! What the collector answers: who may ask, what is turned down and with
//! which words, and what the reports of recent runs look like.

use vstd::prelude::*;
use vstd::string::StringExecFns;
use crate::ledger::Verdict;
use crate::names::{key_ok, key_ok_spec, name_ok, name_ok_spec};
use crate::prometheus::{with_sample, Emitter, EmitterView, StatView};
use crate::store::{
    describe_spec, Auth, ReportSummary, ReportSummaryView, StoreError,
};
use crate::summary::summaries_view;
use crate::text::{eq_ignore_case, same_but_for_case, split_whitespace, texts, whitespace_fields};
use crate::wire::ReportId;

verus! {

/// Status of a request that is malformed or asks for what cannot be.
pub const BAD_REQUEST: u16 = 400;

/// Status of a request from someone who may not make it.
pub const UNAUTHORIZED: u16 = 401;

/// Status of a request that collides with what is recorded.
pub const CONFLICT: u16 = 409;

/// Status of a request that the collector failed to carry out.
pub const INTERNAL_ERROR: u16 = 500;

/// A request that is turned down: the status, and the words that go with
/// it.
#[derive(Debug)]
pub struct HttpFailure {
    pub status: u16,
    pub message: String,
}

/// What an `HttpFailure` holds.
pub struct HttpFailureView {
    pub status: u16,
    pub message: Seq<char>,
}

impl View for HttpFailure {
    type V = HttpFailureView;

    open spec fn view(&self) -> HttpFailureView {
        HttpFailureView { status: self.status, message: self.message@ }
    }
}

fn failure(status: u16, message: &str) -> (f: HttpFailure)
    ensures
        f@ == (HttpFailureView { status: status, message: message@ }),
{
    HttpFailure { status, message: message.to_owned() }
}

/// The failure that reports a fault of the collector itself.
pub open spec fn internal_error(detail: Seq<char>) -> HttpFailureView {
    HttpFailureView { status: INTERNAL_ERROR, message: "internal error: "@ + detail }
}

/// The failure that turns away whoever is not known.
pub open spec fn invalid_authorization() -> HttpFailureView {
    HttpFailureView { status: UNAUTHORIZED, message: "invalid Authorization header"@ }
}

/// The failure that turns away whoever asks for what is not theirs.
pub open spec fn not_yours() -> HttpFailureView {
    HttpFailureView { status: UNAUTHORIZED, message: "uh uh uh"@ }
}

/// The key that an `Authorization` header carries: the header must be the
/// word `bearer`, in any case, and the key, with white space between and
/// around them and nothing else.
pub open spec fn bearer_token_spec(header: Seq<char>) -> Option<Seq<char>> {
    let fields = whitespace_fields(header);
    if fields.len() == 2 && same_but_for_case(fields[0], "bearer"@) {
        Some(fields[1])
    } else {
        None
    }
}

/// The key that what stands in the `Authorization` header carries, if it
/// carries one.
pub fn bearer_token(header: Option<&str>) -> (r: Option<String>)
    ensures
        match header {
            Some(h) => match bearer_token_spec(h@) {
                Some(t) => r is Some && r->0@ == t,
                None => r is None,
            },
            None => r is None,
        },
{
    match header {
        None => None,
        Some(h) => {
            let fields = split_whitespace(h);
            if fields.len() != 2 {
                return None;
            }
            assert(texts(fields@)[0] == fields@[0]@);
            assert(texts(fields@)[1] == fields@[1]@);
            if eq_ignore_case(fields[0].as_str(), "bearer") {
                Some(fields[1].clone())
            } else {
                None
            }
        },
    }
}

/// Who is asking, given what the search for the key found: the host that
/// the key stands for, or the failure to answer with.
pub fn require_auth(found: Option<Result<Option<Auth>, StoreError>>) -> (r: Result<
    Auth,
    HttpFailure,
>)
    ensures
        match found {
            Some(Ok(Some(a))) => r is Ok && r->Ok_0@ == a@,
            Some(Ok(None)) => r is Err && r->Err_0@ == invalid_authorization(),
            Some(Err(e)) => r is Err && r->Err_0@ == internal_error(describe_spec(e@)),
            None => r is Err && r->Err_0@ == invalid_authorization(),
        },
{
    match found {
        Some(Ok(Some(a))) => Ok(a),
        Some(Err(e)) => {
            let mut message = String::from_str("internal error: ");
            let detail = e.describe();
            message.append(detail.as_str());
            Err(HttpFailure { status: INTERNAL_ERROR, message })
        },
        _ => Err(failure(UNAUTHORIZED, "invalid Authorization header")),
    }
}

/// Whether a request to enrol is worth looking at: the key is looked at
/// first, then the name.
pub fn enrol_check(host: &str, key: &str) -> (r: Result<(), HttpFailure>)
    ensures
        if !key_ok_spec(key@) {
            r is Err && r->Err_0@ == (HttpFailureView {
                status: BAD_REQUEST,
                message: "invalid key format"@,
            })
        } else if !name_ok_spec(host@) {
            r is Err && r->Err_0@ == (HttpFailureView {
                status: BAD_REQUEST,
                message: "invalid name format"@,
            })
        } else {
            r is Ok
        },
{
    if !key_ok(key) {
        return Err(failure(BAD_REQUEST, "invalid key format"));
    }
    if !name_ok(host) {
        return Err(failure(BAD_REQUEST, "invalid name format"));
    }
    Ok(())
}

/// What a host that asked to enrol is told.
pub fn enrol(accepted: Result<bool, StoreError>) -> (r: Result<(), HttpFailure>)
    ensures
        match accepted {
            Ok(true) => r is Ok,
            Ok(false) => r is Err && r->Err_0@ == (HttpFailureView {
                status: BAD_REQUEST,
                message: "invalid enrolment request"@,
            }),
            Err(e) => r is Err && r->Err_0@ == internal_error(describe_spec(e@)),
        },
{
    match accepted {
        Ok(true) => Ok(()),
        Ok(false) => Err(failure(BAD_REQUEST, "invalid enrolment request")),
        Err(e) => {
            let mut message = String::from_str("internal error: ");
            let detail = e.describe();
            message.append(detail.as_str());
            Err(HttpFailure { status: INTERNAL_ERROR, message })
        },
    }
}

/// Whether `auth` may report on the run `id`: a host reports on its own
/// runs only, and the job must have a name that may become part of a path.
pub fn report_check(auth: &Auth, id: &ReportId) -> (r: Result<(), HttpFailure>)
    ensures
        if id@.host != auth@.host {
            r is Err && r->Err_0@ == not_yours()
        } else if !name_ok_spec(id@.job) {
            r is Err && r->Err_0@ == (HttpFailureView {
                status: BAD_REQUEST,
                message: "job name too short"@,
            })
        } else {
            r is Ok
        },
{
    if id.host != auth.host {
        return Err(failure(UNAUTHORIZED, "uh uh uh"));
    }
    if !name_ok(id.job.as_str()) {
        return Err(failure(BAD_REQUEST, "job name too short"));
    }
    Ok(())
}

/// What a client that reported on a run is told.
#[derive(Debug)]
pub struct ReportResult {
    pub existed_already: bool,
}

/// What the client is told about a request that was settled with
/// `verdict`, once what there was to write has been written.
pub open spec fn reply_spec(verdict: Verdict) -> Result<ReportResult, HttpFailureView> {
    match verdict {
        Verdict::Created => Ok(ReportResult { existed_already: false }),
        Verdict::Existed => Ok(ReportResult { existed_already: true }),
        Verdict::UuidMismatch => Err(
            HttpFailureView {
                status: CONFLICT,
                message: "this time already submitted, with different UUID"@,
            },
        ),
        Verdict::AlreadyComplete => Err(
            HttpFailureView { status: CONFLICT, message: "this job is already complete"@ },
        ),
        Verdict::NoSuchJob => Err(
            HttpFailureView { status: BAD_REQUEST, message: "this job does not exist"@ },
        ),
        Verdict::LoadFailed => Err(
            HttpFailureView { status: INTERNAL_ERROR, message: "data store error"@ },
        ),
    }
}

/// What the client is told about a request that was settled with
/// `verdict`, once what there was to write has been written.
pub fn reply(verdict: Verdict) -> (r: Result<ReportResult, HttpFailure>)
    ensures
        match reply_spec(verdict) {
            Ok(v) => r is Ok && r->Ok_0 == v,
            Err(e) => r is Err && r->Err_0@ == e,
        },
{
    match verdict {
        Verdict::Created => Ok(ReportResult { existed_already: false }),
        Verdict::Existed => Ok(ReportResult { existed_already: true }),
        Verdict::UuidMismatch => Err(
            failure(CONFLICT, "this time already submitted, with different UUID"),
        ),
        Verdict::AlreadyComplete => Err(failure(CONFLICT, "this job is already complete")),
        Verdict::NoSuchJob => Err(failure(BAD_REQUEST, "this job does not exist")),
        Verdict::LoadFailed => Err(failure(INTERNAL_ERROR, "data store error")),
    }
}

/// What the client is told when the record of its run could not be
/// written: the change does not count as made.
pub fn store_failed(detail: &str) -> (f: HttpFailure)
    ensures
        f@ == (HttpFailureView { status: INTERNAL_ERROR, message: "store file? "@ + detail@ }),
{
    let mut message = String::from_str("store file? ");
    message.append(detail);
    HttpFailure { status: INTERNAL_ERROR, message }
}

/// Whether `auth` may see the runs of all hosts.
pub fn global_check(auth: &Auth) -> (r: Result<(), HttpFailure>)
    ensures
        if auth@.global_view {
            r is Ok
        } else {
            r is Err && r->Err_0@ == not_yours()
        },
{
    if !auth.global_view {
        return Err(failure(UNAUTHORIZED, "uh uh uh"));
    }
    Ok(())
}

/// What a host that pinged is told.
#[derive(Debug)]
pub struct PingResult {
    pub ok: bool,
    pub host: String,
}

/// Tells a host that it is known, and by which name.
pub fn ping(auth: Auth) -> (r: PingResult)
    ensures
        r.ok,
        r.host@ == auth@.host,
{
    PingResult { ok: true, host: auth.host }
}

} // verus!

verus! {

/// The statistics that the collector publishes.
pub open spec fn metrics_defined() -> EmitterView {
    EmitterView {
        typedefs: Map::<Seq<char>, StatView>::empty().insert(
            "keeper_job_age_seconds"@,
            StatView {
                name: "keeper_job_age_seconds"@,
                typ: "gauge"@,
                desc: "age of this job report"@,
            },
        ).insert(
            "keeper_job_ok"@,
            StatView {
                name: "keeper_job_ok"@,
                typ: "gauge"@,
                desc: "did the last run of this job exit 0?"@,
            },
        ).insert(
            "keeper_job_duration_seconds"@,
            StatView {
                name: "keeper_job_duration_seconds"@,
                typ: "gauge"@,
                desc: "for how long did the last job run?"@,
            },
        ),
        printed: Set::empty(),
        out: Seq::empty(),
    }
}

/// Whether a run ended well, as a number.
pub open spec fn ok_value(status: i32) -> int {
    if status == 0 {
        1
    } else {
        0
    }
}

/// The emitter once the three values of one line of the overview are
/// written: the age, the duration, and whether the run ended well.
pub open spec fn with_line(e: EmitterView, j: ReportSummaryView) -> EmitterView {
    with_sample(
        with_sample(
            with_sample(e, "keeper_job_age_seconds"@, j.host, j.job, j.age_seconds as int),
            "keeper_job_duration_seconds"@,
            j.host,
            j.job,
            j.duration_seconds as int,
        ),
        "keeper_job_ok"@,
        j.host,
        j.job,
        ok_value(j.status),
    )
}

/// The emitter once the values of all of `lines` are written, in order.
pub open spec fn with_lines(e: EmitterView, lines: Seq<ReportSummaryView>) -> EmitterView
    decreases lines.len(),
{
    if lines.len() == 0 {
        e
    } else {
        with_line(with_lines(e, lines.drop_last()), lines.last())
    }
}

/// The metrics of an overview: for every line its age, its duration and
/// whether it ended well, each statistic under a header when it first
/// occurs.
pub open spec fn metrics_text(lines: Seq<ReportSummaryView>) -> Seq<char> {
    with_lines(metrics_defined(), lines).out
}

/// Writes the overview of the latest runs as metrics.
pub fn global_metrics(summary: &Vec<ReportSummary>) -> (text: String)
    ensures
        text@ == metrics_text(summaries_view(summary@)),
{
    let mut e = Emitter::new();
    e.define("keeper_job_age_seconds", "gauge", "age of this job report");
    e.define("keeper_job_ok", "gauge", "did the last run of this job exit 0?");
    e.define("keeper_job_duration_seconds", "gauge", "for how long did the last job run?");
    let ghost lines = summaries_view(summary@);
    assert(e@ == metrics_defined()) by {
        assert(e@.typedefs =~= metrics_defined().typedefs);
    }
    let mut i: usize = 0;
    while i < summary.len()
        invariant
            i <= summary.len(),
            lines == summaries_view(summary@),
            e@ == with_lines(metrics_defined(), lines.take(i as int)),
            e@.typedefs == metrics_defined().typedefs,
        decreases summary.len() - i,
    {
        let j = &summary[i];
        proof {
            assert(lines.take(i + 1).drop_last() =~= lines.take(i as int));
            assert(lines.take(i + 1).last() == j@);
            assert(metrics_defined().typedefs.dom().contains("keeper_job_age_seconds"@));
            assert(metrics_defined().typedefs.dom().contains("keeper_job_duration_seconds"@));
            assert(metrics_defined().typedefs.dom().contains("keeper_job_ok"@));
        }
        e.emit_i32("keeper_job_age_seconds", j.host.as_str(), j.job.as_str(), j.age_seconds);
        e.emit_i32(
            "keeper_job_duration_seconds",
            j.host.as_str(),
            j.job.as_str(),
            j.duration_seconds,
        );
        let ok: i32 = if j.status == 0 {
            1
        } else {
            0
        };
        e.emit_i32("keeper_job_ok", j.host.as_str(), j.job.as_str(), ok);
        i += 1;
    }
    assert(lines.take(summary.len() as int) =~= lines);
    e.out().to_owned()
}

} // verus!
