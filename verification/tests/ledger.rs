use keeper::ledger::{holds_record, report_finish, report_output, report_start, Loaded, Outcome, Verdict};
use keeper::store::{OutputRecord, PostFile};
use keeper::time::Timestamp;
use keeper::wire::ReportId;

fn at(secs: i64) -> Timestamp {
    Timestamp { secs, nanos: 0 }
}

fn run_id(uuid: &str) -> ReportId {
    ReportId { host: "web1".to_string(), job: "backup".to_string(), pid: 42, time: at(1000), uuid: uuid.to_string() }
}

fn line(stream: &str, msg: &str, secs: i64) -> OutputRecord {
    OutputRecord { time: at(secs), stream: stream.to_string(), msg: msg.to_string() }
}

fn copy_of(f: &PostFile) -> PostFile {
    PostFile {
        report_pid: f.report_pid,
        report_uuid: f.report_uuid.clone(),
        report_time: f.report_time,
        time_start: f.time_start,
        time_end: f.time_end,
        script: f.script.clone(),
        duration: f.duration,
        status: f.status,
        output: f.output.iter().map(|r| line(&r.stream, &r.msg, r.time.secs)).collect(),
        sealed: f.sealed,
    }
}

fn kept(slot: &Option<PostFile>) -> Loaded {
    match slot {
        Some(f) => Loaded::Found(copy_of(f)),
        None => Loaded::Absent,
    }
}

fn carry_out(outcome: Outcome, slot: &mut Option<PostFile>) -> Verdict {
    if let Some(f) = outcome.write {
        *slot = Some(f);
    }
    outcome.verdict
}

fn lines_of(slot: &Option<PostFile>) -> Vec<(String, String, i64)> {
    slot.as_ref().unwrap().output.iter().map(|r| (r.stream.clone(), r.msg.clone(), r.time.secs)).collect()
}

#[test]
fn start_creates_an_open_empty_record() {
    let out = report_start(&run_id("U1"), "tar cf /b /home", at(1001), Loaded::Absent, at(1002));
    assert!(matches!(out.verdict, Verdict::Created));
    let f = out.write.unwrap();
    assert_eq!(f.report_uuid, "U1");
    assert_eq!(f.report_pid, 42);
    assert_eq!(f.script, "tar cf /b /home");
    assert_eq!(f.time_start, at(1001));
    assert_eq!(f.report_time, at(1002));
    assert_eq!((f.time_end, f.duration, f.status), (None, None, None));
    assert!(f.output.is_empty());
    assert!(!f.sealed);
    assert!(f.is_wf());
}

#[test]
fn start_twice_with_the_same_arguments_existed_already() {
    let mut slot = None;
    let first = carry_out(report_start(&run_id("U1"), "s", at(1), kept(&slot), at(2)), &mut slot);
    assert!(matches!(first, Verdict::Created));
    let before = copy_of(slot.as_ref().unwrap());
    let again = report_start(&run_id("U1"), "s", at(1), kept(&slot), at(99));
    assert!(matches!(again.verdict, Verdict::Existed));
    assert!(again.write.is_none());
    let second = carry_out(again, &mut slot);
    assert!(matches!(second, Verdict::Existed));
    assert_eq!(slot.as_ref().unwrap().report_time, before.report_time);
    assert_eq!(slot.as_ref().unwrap().report_uuid, before.report_uuid);
}

#[test]
fn start_with_another_uuid_is_a_conflict_in_either_order() {
    for (a, b) in [("U1", "U2"), ("U2", "U1")] {
        let mut slot = None;
        let first = carry_out(report_start(&run_id(a), "s", at(1), kept(&slot), at(2)), &mut slot);
        assert!(matches!(first, Verdict::Created));
        let second = report_start(&run_id(b), "s", at(1), kept(&slot), at(3));
        assert!(matches!(second.verdict, Verdict::UuidMismatch));
        assert!(second.write.is_none());
        assert_eq!(slot.as_ref().unwrap().report_uuid, a);
    }
}

#[test]
fn start_cannot_reopen_a_sealed_run() {
    let mut slot = None;
    carry_out(report_start(&run_id("U1"), "s", at(1), kept(&slot), at(2)), &mut slot);
    carry_out(report_finish(&run_id("U1"), at(9), 8000, 0, kept(&slot)), &mut slot);
    let again = report_start(&run_id("U1"), "s", at(1), kept(&slot), at(10));
    assert!(matches!(again.verdict, Verdict::AlreadyComplete));
    assert!(again.write.is_none());
}

#[test]
fn output_is_appended_in_order_and_replays_are_dropped() {
    let mut slot = None;
    carry_out(report_start(&run_id("U1"), "s", at(1), kept(&slot), at(2)), &mut slot);
    let offered = [("stdout", "a", 3), ("stderr", "a", 3), ("stdout", "b", 3), ("stdout", "a", 4)];
    for (stream, msg, secs) in offered {
        let v = carry_out(report_output(&run_id("U1"), line(stream, msg, secs), kept(&slot)), &mut slot);
        assert!(matches!(v, Verdict::Created));
    }
    assert_eq!(lines_of(&slot).len(), 4);
    let replay = report_output(&run_id("U1"), line("stderr", "a", 3), kept(&slot));
    assert!(matches!(replay.verdict, Verdict::Existed));
    assert!(replay.write.is_none());
    let expected: Vec<(String, String, i64)> =
        offered.iter().map(|(s, m, t)| (s.to_string(), m.to_string(), *t)).collect();
    assert_eq!(lines_of(&slot), expected);
    assert!(holds_record(&slot.as_ref().unwrap().output, &line("stdout", "b", 3)));
    assert!(!holds_record(&slot.as_ref().unwrap().output, &line("stdout", "b", 4)));
    assert!(line("x", "y", 1).same(&line("x", "y", 1)));
    assert!(!line("x", "y", 1).same(&line("x", "z", 1)));
}

#[test]
fn output_needs_an_open_run_of_the_same_uuid() {
    let missing = report_output(&run_id("U1"), line("stdout", "a", 3), Loaded::Absent);
    assert!(matches!(missing.verdict, Verdict::NoSuchJob));
    assert!(missing.write.is_none());
    let unread = report_output(&run_id("U1"), line("stdout", "a", 3), Loaded::Failed);
    assert!(matches!(unread.verdict, Verdict::LoadFailed));
    let mut slot = None;
    carry_out(report_start(&run_id("U1"), "s", at(1), kept(&slot), at(2)), &mut slot);
    let other = report_output(&run_id("U2"), line("stdout", "a", 3), kept(&slot));
    assert!(matches!(other.verdict, Verdict::UuidMismatch));
    carry_out(report_finish(&run_id("U1"), at(9), 8000, 0, kept(&slot)), &mut slot);
    let late = report_output(&run_id("U1"), line("stdout", "late", 10), kept(&slot));
    assert!(matches!(late.verdict, Verdict::AlreadyComplete));
    assert!(late.write.is_none());
}

#[test]
fn finish_seals_once_and_the_first_finish_wins() {
    let mut slot = None;
    carry_out(report_start(&run_id("U1"), "s", at(1), kept(&slot), at(2)), &mut slot);
    carry_out(report_output(&run_id("U1"), line("stdout", "a", 3), kept(&slot)), &mut slot);
    let v = carry_out(report_finish(&run_id("U1"), at(9), 8000, 3, kept(&slot)), &mut slot);
    assert!(matches!(v, Verdict::Created));
    {
        let f = slot.as_ref().unwrap();
        assert!(f.sealed && f.is_wf());
        assert_eq!((f.time_end, f.duration, f.status), (Some(at(9)), Some(8000), Some(3)));
        assert_eq!(f.output.len(), 1);
    }
    let again = report_finish(&run_id("U1"), at(20), 1, 0, kept(&slot));
    assert!(matches!(again.verdict, Verdict::Existed));
    assert!(again.write.is_none());
    carry_out(again, &mut slot);
    let f = slot.as_ref().unwrap();
    assert_eq!((f.time_end, f.duration, f.status), (Some(at(9)), Some(8000), Some(3)));
    let other = report_finish(&run_id("U2"), at(20), 1, 0, kept(&slot));
    assert!(matches!(other.verdict, Verdict::UuidMismatch));
    let missing = report_finish(&run_id("U1"), at(20), 1, 0, Loaded::Absent);
    assert!(matches!(missing.verdict, Verdict::NoSuchJob));
    let unread = report_finish(&run_id("U1"), at(20), 1, 0, Loaded::Failed);
    assert!(matches!(unread.verdict, Verdict::LoadFailed));
    let unread_start = report_start(&run_id("U1"), "s", at(1), Loaded::Failed, at(2));
    assert!(matches!(unread_start.verdict, Verdict::LoadFailed));
}
