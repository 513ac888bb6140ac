use keeper::exec::{decode_line, exit_events, reader_step, Activity, ReadOutcome, WaitOutcome, UNKNOWN_EXIT};
use keeper::time::Timestamp;

fn now() -> Timestamp {
    Timestamp { secs: 1_700_000_000, nanos: 5 }
}

fn shown(a: &Activity) -> String {
    match a {
        Activity::Output(o) => {
            let r = o.to_record();
            format!("output {} {:?} {}", r.stream, r.msg, r.time.secs)
        }
        Activity::Exit(e) => format!("exit {} {} {}", e.code, e.duration_ms, e.when.secs),
        Activity::Complete => "complete".to_string(),
    }
}

#[test]
fn a_command_that_writes_two_lines_and_exits_zero() {
    let mut events = Vec::new();
    let reads = [
        ReadOutcome::Line(b"a\n".to_vec()),
        ReadOutcome::Line(b"b\n".to_vec()),
        ReadOutcome::Eof,
    ];
    let mut reading = true;
    for outcome in reads {
        assert!(reading);
        let step = reader_step("stdout", outcome, now());
        reading = step.again;
        events.extend(step.emit);
    }
    assert!(!reading);
    let stderr = reader_step("stderr", ReadOutcome::Eof, now());
    assert!(stderr.emit.is_none() && !stderr.again);
    events.extend(exit_events(WaitOutcome::Exited { code: Some(0), signal: None }, 1234, now()));
    let shown: Vec<String> = events.iter().map(shown).collect();
    assert_eq!(
        shown,
        vec![
            "output stdout \"a\" 1700000000",
            "output stdout \"b\" 1700000000",
            "exit 0 1234 1700000000",
            "complete",
        ]
    );
}

#[test]
fn lines_are_decoded_leniently_and_lose_their_line_feed() {
    assert_eq!(decode_line(&b"hello\n".to_vec()), "hello");
    assert_eq!(decode_line(&b"no newline".to_vec()), "no newline");
    assert_eq!(decode_line(&b"\n".to_vec()), "");
    assert_eq!(decode_line(&b"caf\xc3\xa9\n".to_vec()), "café");
    assert_eq!(decode_line(&b"bad \xff byte\n".to_vec()), "bad \u{fffd} byte");
    assert_eq!(decode_line(&b"keep \r\n".to_vec()), "keep \r");
}

#[test]
fn a_read_failure_is_reported_once_and_stops_the_reader() {
    let step = reader_step("stderr", ReadOutcome::Failed("Os { code: 5 }".to_string()), now());
    assert!(!step.again);
    assert_eq!(shown(&step.emit.unwrap()), "output error \"failed to read stderr: Os { code: 5 }\" 1700000000");
}

#[test]
fn a_signal_is_reported_before_the_exit_with_the_unknown_code() {
    let events = exit_events(WaitOutcome::Exited { code: None, signal: Some(9) }, 10, now());
    let shown: Vec<String> = events.iter().map(shown).collect();
    assert_eq!(
        shown,
        vec![
            "output error \"child terminated by signal 9\" 1700000000",
            "exit 2147483647 10 1700000000",
            "complete",
        ]
    );
    assert_eq!(UNKNOWN_EXIT, i32::MAX);
}

#[test]
fn a_failed_wait_is_reported_before_the_exit() {
    let events = exit_events(WaitOutcome::Failed("gone".to_string()), 77, now());
    let shown: Vec<String> = events.iter().map(shown).collect();
    assert_eq!(
        shown,
        vec!["output error \"child wait error: gone\" 1700000000", "exit 2147483647 77 1700000000", "complete"]
    );
}

#[test]
fn activities_are_made_of_what_they_are_given() {
    assert_eq!(shown(&Activity::msg("stdout", "x", now())), "output stdout \"x\" 1700000000");
    assert_eq!(shown(&Activity::err("oops", now())), "output error \"oops\" 1700000000");
    assert_eq!(shown(&Activity::exit(5, now(), -3)), "exit -3 5 1700000000");
    assert_eq!(shown(&Activity::exit((1u128 << 64) + 7, now(), 0)), "exit 0 7 1700000000");
    assert_eq!(shown(&Activity::exit(u64::MAX as u128, now(), 1)), format!("exit 1 {} 1700000000", u64::MAX));
}
