use keeper::common::genkey;
use keeper::exec::Activity;
use keeper::names::key_ok;
use keeper::submit::{
    enrol_config, enrol_reply, job_and_script, ping_reply, shell_command, Action, ConfigFile, Event, Reply,
    Failure, Reporter, SubmitError, ENROL_RETRY_MS, PING_RETRY_MS, REPORT_RETRY_MS,
};
use keeper::time::Timestamp;
use keeper::wire::{ReportId, Request, RUN_UUID_LENGTH};

fn clock(secs: i64) -> Timestamp {
    Timestamp { secs, nanos: 0 }
}

fn words(list: &[&str]) -> Vec<String> {
    list.iter().map(|s| s.to_string()).collect()
}

fn config() -> ConfigFile {
    ConfigFile { baseurl: "http://keeper:9978".to_string(), host: "web1".to_string(), key: "k".repeat(64) }
}

fn told(r: &Request) -> String {
    match r {
        Request::Start { id, script, start_time } => format!("start {} {} {} {}", id.uuid, id.job, script, start_time.secs),
        Request::Output { id, record } => format!("output {} {} {}", id.uuid, record.stream, record.msg),
        Request::Finish { id, end_time, duration_millis, exit_status } => {
            format!("finish {} {} {} {}", id.uuid, end_time.secs, duration_millis, exit_status)
        }
    }
}

fn lost(detail: &str) -> Failure {
    Failure::Transport(detail.to_string())
}

fn status(status: u16, detail: &str) -> Failure {
    Failure::Status { status, detail: detail.to_string() }
}

fn fixed_id() -> ReportId {
    ReportId { host: "web1".to_string(), job: "backup".to_string(), pid: 9, time: clock(100), uuid: "U1".to_string() }
}

#[test]
fn fresh_keys_are_letters_and_digits_of_the_length_asked() {
    for len in [0usize, 1, 32, 64, 200] {
        let k = genkey(len);
        assert_eq!(k.len(), len);
        assert!(k.chars().all(|c| c.is_ascii_alphanumeric()));
    }
    assert!(key_ok(&genkey(64)));
    assert_ne!(genkey(64), genkey(64));
}

#[test]
fn a_run_gets_a_fresh_identifier() {
    let id = ReportId::new("web1", "backup", 4711, clock(5));
    assert_eq!((id.host.as_str(), id.job.as_str(), id.pid, id.time), ("web1", "backup", 4711, clock(5)));
    assert_eq!(id.uuid.len(), RUN_UUID_LENGTH);
    assert_eq!(RUN_UUID_LENGTH, 32);
    assert!(id.uuid.chars().all(|c| c.is_ascii_alphanumeric()));
    let twin = id.duplicate();
    assert_eq!((twin.host, twin.job, twin.pid, twin.time, twin.uuid), (id.host, id.job, id.pid, id.time, id.uuid));
}

#[test]
fn the_client_reports_every_event_once_and_in_order() {
    let mut sent: Vec<String> = Vec::new();
    let mut reporter = Reporter::start(fixed_id(), "backup.sh", clock(101), false);
    sent.push(told(reporter.request().unwrap()));
    let events = vec![
        Event::Failed(lost("refused")),
        Event::Failed(lost("refused")),
        Event::Delivered,
        Event::Activity(Activity::msg("stdout", "a", clock(102))),
        Event::Delivered,
        Event::Activity(Activity::msg("stderr", "b", clock(103))),
        Event::Failed(status(503, "timeout")),
        Event::Delivered,
        Event::Activity(Activity::exit(2500, clock(104), 0)),
        Event::Delivered,
        Event::Activity(Activity::Complete),
    ];
    let mut actions: Vec<String> = Vec::new();
    for event in events {
        let (next, action) = reporter.step(event);
        reporter = next;
        match action {
            Action::Send => {
                sent.push(told(reporter.request().unwrap()));
                actions.push("send".to_string());
            }
            Action::Retry { delay_ms, complaint } => {
                assert_eq!(delay_ms, REPORT_RETRY_MS);
                actions.push(format!("retry {} {:?}", told(reporter.request().unwrap()), complaint));
            }
            Action::Receive => {
                assert!(reporter.request().is_none());
                actions.push("receive".to_string());
            }
            Action::Finished => actions.push("finished".to_string()),
            Action::Lost => actions.push("lost".to_string()),
            Action::Refused(why) => actions.push(format!("refused {}", why)),
        }
    }
    assert!(reporter.is_finished());
    assert_eq!(
        sent,
        vec!["start U1 backup backup.sh 101", "output U1 stdout a", "output U1 stderr b", "finish U1 104 2500 0"]
    );
    assert_eq!(
        actions,
        vec![
            "retry start U1 backup backup.sh 101 Some(\"ERROR: refused\")",
            "retry start U1 backup backup.sh 101 Some(\"ERROR: refused\")",
            "receive",
            "send",
            "receive",
            "send",
            "retry output U1 stderr b Some(\"ERROR: timeout\")",
            "receive",
            "send",
            "receive",
            "finished",
        ]
    );
    assert_eq!(REPORT_RETRY_MS, 1000);
}

#[test]
fn silence_mutes_the_complaint_and_changes_nothing_else() {
    let reporter = Reporter::start(fixed_id(), "s", clock(1), true);
    let (reporter, action) = reporter.step(Event::Failed(lost("refused")));
    match action {
        Action::Retry { delay_ms, complaint } => {
            assert_eq!(delay_ms, 1000);
            assert_eq!(complaint, None);
        }
        _ => panic!("a failure must be tried again"),
    }
    assert_eq!(told(reporter.request().unwrap()), "start U1 backup s 1");
    let (reporter, action) = reporter.step(Event::Delivered);
    assert!(matches!(action, Action::Receive));
    assert!(!reporter.is_finished());
}

#[test]
fn a_collision_or_a_malformed_report_is_never_sent_again() {
    for (failure, words) in [(status(409, "conflict"), "conflict"), (status(400, "bad"), "bad"), (status(404, "gone"), "gone")] {
        let reporter = Reporter::start(fixed_id(), "s", clock(1), false);
        let (reporter, action) = reporter.step(Event::Failed(failure));
        match action {
            Action::Refused(why) => assert_eq!(why, words),
            _ => panic!("the request must be given up"),
        }
        assert!(reporter.request().is_none());
        assert!(!reporter.is_finished());
        let (reporter, action) = reporter.step(Event::Delivered);
        assert!(matches!(action, Action::Refused(_)));
        let (_, action) = reporter.step(Event::Activity(Activity::Complete));
        assert!(matches!(action, Action::Refused(_)));
    }
}

#[test]
fn a_doubt_about_the_host_or_a_fault_of_the_collector_is_tried_again() {
    for failure in [status(401, "who?"), status(403, "no"), status(500, "disk"), status(502, "gateway"), lost("reset")] {
        assert!(failure.retry_report());
        let reporter = Reporter::start(fixed_id(), "s", clock(1), false);
        let (reporter, action) = reporter.step(Event::Failed(failure));
        assert!(matches!(action, Action::Retry { delay_ms: 1000, complaint: Some(_) }));
        assert_eq!(told(reporter.request().unwrap()), "start U1 backup s 1");
    }
    assert!(!status(409, "").retry_report());
    assert!(!status(400, "").retry_report());
    assert!(!status(401, "").retry_command());
    assert!(!status(400, "").retry_command());
    assert!(status(500, "").retry_command());
    assert!(lost("").retry_command());
    assert_eq!(status(500, "why").text(), "why");
    assert_eq!(lost("how").text(), "how");
}

#[test]
fn events_out_of_turn_change_nothing() {
    let reporter = Reporter::start(fixed_id(), "s", clock(1), false);
    let (reporter, action) = reporter.step(Event::Activity(Activity::Complete));
    assert!(matches!(action, Action::Send));
    assert_eq!(told(reporter.request().unwrap()), "start U1 backup s 1");
    let (reporter, action) = reporter.step(Event::Closed);
    assert!(matches!(action, Action::Send));
    let (reporter, _) = reporter.step(Event::Delivered);
    let (reporter, action) = reporter.step(Event::Delivered);
    assert!(matches!(action, Action::Receive));
    let (reporter, action) = reporter.step(Event::Failed(lost("x")));
    assert!(matches!(action, Action::Receive));
    let (reporter, action) = reporter.step(Event::Closed);
    assert!(matches!(action, Action::Lost));
    let (reporter, action) = reporter.step(Event::Delivered);
    assert!(matches!(action, Action::Lost));
    assert!(!reporter.is_finished());
    let done = Reporter::start(fixed_id(), "s", clock(1), false);
    let (done, _) = done.step(Event::Delivered);
    let (done, _) = done.step(Event::Activity(Activity::Complete));
    let (done, action) = done.step(Event::Activity(Activity::msg("stdout", "late", clock(2))));
    assert!(matches!(action, Action::Finished));
    assert!(done.is_finished() && done.request().is_none());
}

#[test]
fn the_script_is_the_arguments_after_the_job() {
    let (job, script) = job_and_script(&words(&["backup", "tar", "cf", "/b", "/home"])).ok().unwrap();
    assert_eq!((job.as_str(), script.as_str()), ("backup", "tar cf /b /home"));
    let (_, script) = job_and_script(&words(&["j", "echo"])).ok().unwrap();
    assert_eq!(script, "echo");
    let (_, script) = job_and_script(&words(&["j", "", ""])).ok().unwrap();
    assert_eq!(script, " ");
    assert!(matches!(job_and_script(&words(&[])), Err(SubmitError::NoJobName)));
    assert!(matches!(job_and_script(&words(&["j"])), Err(SubmitError::NoScript)));
    assert!(matches!(job_and_script(&words(&["j", ""])), Err(SubmitError::NoScript)));
    assert_eq!(shell_command("echo hi"), words(&["/usr/bin/bash", "-c", "echo hi"]));
}

#[test]
fn enrolling_keeps_a_configuration_or_makes_one() {
    let made = enrol_config(None, &words(&["web1", "http://keeper:9978"])).ok().unwrap();
    assert!(made.fresh);
    assert_eq!((made.config.host.as_str(), made.config.baseurl.as_str()), ("web1", "http://keeper:9978"));
    assert!(key_ok(&made.config.key));
    let existing = enrol_config(Some(config()), &words(&["web1", "http://keeper:9978"])).ok().unwrap();
    assert!(!existing.fresh);
    assert_eq!(existing.config.key, "k".repeat(64));
    assert!(matches!(
        enrol_config(Some(config()), &words(&["web2", "http://keeper:9978"])),
        Err(SubmitError::ConflictingEnrolment)
    ));
    assert!(matches!(
        enrol_config(Some(config()), &words(&["web1", "http://other"])),
        Err(SubmitError::ConflictingEnrolment)
    ));
    assert!(matches!(enrol_config(None, &words(&["web1"])), Err(SubmitError::WrongArguments)));
    assert!(matches!(enrol_config(Some(config()), &words(&["a", "b", "c"])), Err(SubmitError::WrongArguments)));
}

#[test]
fn enrol_and_ping_retry_until_they_are_answered() {
    match enrol_reply(Ok(())) {
        Reply::Done(m) => assert_eq!(m, "ok"),
        _ => panic!("enrolment must end well"),
    }
    match enrol_reply(Err(status(400, "invalid key format"))) {
        Reply::Fail(m) => assert_eq!(m, "request error; giving up: invalid key format"),
        _ => panic!("a request that is turned down must not be sent again"),
    }
    match enrol_reply(Err(status(401, "who?"))) {
        Reply::Fail(m) => assert_eq!(m, "request error; giving up: who?"),
        _ => panic!("a request that is turned down must not be sent again"),
    }
    match enrol_reply(Err(lost("refused"))) {
        Reply::Retry { delay_ms, complaint } => {
            assert_eq!(delay_ms, ENROL_RETRY_MS);
            assert_eq!(delay_ms, 1000);
            assert_eq!(complaint, "other error; retrying: refused");
        }
        _ => panic!("a failure must be tried again"),
    }
    match ping_reply(&config(), Ok("web1".to_string())) {
        Reply::Done(m) => assert_eq!(m, "ok, host \"web1\""),
        _ => panic!("the ping must end well"),
    }
    match ping_reply(&config(), Ok("web2".to_string())) {
        Reply::Fail(m) => assert_eq!(m, "remote host web2 != local host web1"),
        _ => panic!("another host must not pass"),
    }
    match ping_reply(&config(), Err(status(401, "invalid Authorization header"))) {
        Reply::Fail(m) => assert_eq!(m, "request error; giving up: invalid Authorization header"),
        _ => panic!("a host that is not known must not ask again"),
    }
    match ping_reply(&config(), Err(status(503, "503"))) {
        Reply::Retry { delay_ms, complaint } => {
            assert_eq!(delay_ms, PING_RETRY_MS);
            assert_eq!(delay_ms, 5000);
            assert_eq!(complaint, "other error; retrying: 503");
        }
        _ => panic!("a failure must be tried again"),
    }
}
