use keeper::ledger::Verdict;
use keeper::server::{
    bearer_token, enrol, enrol_check, global_check, global_metrics, ping, reply, report_check, require_auth,
    store_failed, BAD_REQUEST, CONFLICT, INTERNAL_ERROR, UNAUTHORIZED,
};
use keeper::store::{Auth, ReportSummary, StoreError};
use keeper::time::Timestamp;
use keeper::wire::ReportId;

fn who(host: &str, global_view: bool) -> Auth {
    Auth { host: host.to_string(), global_view }
}

fn about(host: &str, job: &str) -> ReportId {
    ReportId { host: host.to_string(), job: job.to_string(), pid: 1, time: Timestamp { secs: 1, nanos: 0 }, uuid: "U".to_string() }
}

fn turned_down<T>(r: Result<T, keeper::server::HttpFailure>) -> (u16, String) {
    match r {
        Err(f) => (f.status, f.message),
        Ok(_) => panic!("the request must be turned down"),
    }
}

#[test]
fn the_authorization_header_carries_a_bearer_key() {
    assert_eq!(bearer_token(Some("Bearer abc123")), Some("abc123".to_string()));
    assert_eq!(bearer_token(Some("bearer abc123")), Some("abc123".to_string()));
    assert_eq!(bearer_token(Some("BEARER   abc123  ")), Some("abc123".to_string()));
    assert_eq!(bearer_token(Some("\tbEaReR\tabc123")), Some("abc123".to_string()));
    assert_eq!(bearer_token(Some("Bearer")), None);
    assert_eq!(bearer_token(Some("Bearer a b")), None);
    assert_eq!(bearer_token(Some("Basic abc123")), None);
    assert_eq!(bearer_token(Some("Bearerabc123")), None);
    assert_eq!(bearer_token(Some("")), None);
    assert_eq!(bearer_token(None), None);
}

#[test]
fn only_a_known_key_is_let_in() {
    let known = require_auth(Some(Ok(Some(who("web1", true))))).ok().unwrap();
    assert_eq!((known.host.as_str(), known.global_view), ("web1", true));
    assert_eq!(
        turned_down(require_auth(Some(Ok(None)))),
        (401, "invalid Authorization header".to_string())
    );
    assert_eq!(turned_down(require_auth(None)), (UNAUTHORIZED, "invalid Authorization header".to_string()));
    let twice = StoreError::DuplicateKeys { first: "b".to_string(), second: "a".to_string() };
    assert_eq!(
        turned_down(require_auth(Some(Err(twice)))),
        (500, "internal error: duplicate keys? b and a".to_string())
    );
}

#[test]
fn a_host_reports_on_its_own_runs_only() {
    assert!(report_check(&who("web1", false), &about("web1", "backup")).is_ok());
    assert_eq!(turned_down(report_check(&who("web1", true), &about("web2", "backup"))), (401, "uh uh uh".to_string()));
    assert_eq!(turned_down(report_check(&who("web1", false), &about("web1", "b"))), (400, "job name too short".to_string()));
    assert_eq!(turned_down(report_check(&who("web1", false), &about("web1", "Back up"))), (BAD_REQUEST, "job name too short".to_string()));
    assert_eq!(turned_down(report_check(&who("web1", false), &about("web2", "b"))), (401, "uh uh uh".to_string()));
}

#[test]
fn verdicts_are_told_as_the_protocol_has_them() {
    assert!(!reply(Verdict::Created).ok().unwrap().existed_already);
    assert!(reply(Verdict::Existed).ok().unwrap().existed_already);
    assert_eq!(
        turned_down(reply(Verdict::UuidMismatch)),
        (CONFLICT, "this time already submitted, with different UUID".to_string())
    );
    assert_eq!(turned_down(reply(Verdict::AlreadyComplete)), (409, "this job is already complete".to_string()));
    assert_eq!(turned_down(reply(Verdict::NoSuchJob)), (400, "this job does not exist".to_string()));
    assert_eq!(turned_down(reply(Verdict::LoadFailed)), (INTERNAL_ERROR, "data store error".to_string()));
    let f = store_failed("Os { code: 28 }");
    assert_eq!((f.status, f.message.as_str()), (500, "store file? Os { code: 28 }"));
}

#[test]
fn enrolment_is_checked_key_first() {
    let key = "a".repeat(64);
    assert!(enrol_check("web1", &key).is_ok());
    assert_eq!(turned_down(enrol_check("web1", "abcdefghij")), (400, "invalid key format".to_string()));
    assert_eq!(turned_down(enrol_check("W", "abcdefghij")), (400, "invalid key format".to_string()));
    assert_eq!(turned_down(enrol_check("W", &key)), (400, "invalid name format".to_string()));
    assert!(enrol(Ok(true)).is_ok());
    assert_eq!(turned_down(enrol(Ok(false))), (400, "invalid enrolment request".to_string()));
    assert_eq!(
        turned_down(enrol(Err(StoreError::Failed("enrol key failure: x".to_string())))),
        (500, "internal error: enrol key failure: x".to_string())
    );
}

#[test]
fn the_view_of_all_hosts_needs_the_capability() {
    assert!(global_check(&who("ops", true)).is_ok());
    assert_eq!(turned_down(global_check(&who("web1", false))), (401, "uh uh uh".to_string()));
    let told = ping(who("web1", false));
    assert!(told.ok);
    assert_eq!(told.host, "web1");
}

#[test]
fn metrics_write_each_header_once() {
    let line = |host: &str, job: &str, status: i32, duration: i32, age: i32| ReportSummary {
        host: host.to_string(),
        job: job.to_string(),
        when: Timestamp { secs: 0, nanos: 0 },
        status,
        duration_seconds: duration,
        age_seconds: age,
    };
    assert_eq!(global_metrics(&Vec::new()), "");
    let text = global_metrics(&vec![line("web1", "backup", 0, 12, 3600), line("db-2", "vacuum", -2, 0, i32::MAX)]);
    assert_eq!(
        text,
        "# TYPE keeper_job_age_seconds gauge\n\
         # HELP keeper_job_age_seconds age of this job report\n\
         keeper_job_age_seconds{host=\"web1\",name=\"backup\"}\t3600\n\
         # TYPE keeper_job_duration_seconds gauge\n\
         # HELP keeper_job_duration_seconds for how long did the last job run?\n\
         keeper_job_duration_seconds{host=\"web1\",name=\"backup\"}\t12\n\
         # TYPE keeper_job_ok gauge\n\
         # HELP keeper_job_ok did the last run of this job exit 0?\n\
         keeper_job_ok{host=\"web1\",name=\"backup\"}\t1\n\
         keeper_job_age_seconds{host=\"db-2\",name=\"vacuum\"}\t2147483647\n\
         keeper_job_duration_seconds{host=\"db-2\",name=\"vacuum\"}\t0\n\
         keeper_job_ok{host=\"db-2\",name=\"vacuum\"}\t0\n"
    );
}
