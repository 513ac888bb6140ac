use keeper::openapi::{ClientBuilder, EnrolBody, GlobalJobsResult, InlineObject};
use keeper::store::ReportSummary;
use keeper::time::Timestamp;
use keeper::xtask::{CommandOutput, OutputExt};

#[test]
fn a_connection_carries_the_key_as_a_bearer() {
    let mut b = ClientBuilder::new("http://keeper:9978");
    let plain = b.build();
    assert_eq!(plain.url, "http://keeper:9978");
    assert_eq!(plain.authorization, None);
    assert_eq!((plain.timeout_secs, plain.tcp_keepalive_secs, plain.connect_timeout_secs), (15, 30, 10));
    b.bearer_token("abc123");
    assert_eq!(b.build().authorization, Some("Bearer abc123".to_string()));
    let plan = b.bearer_token("third").bearer_token("other").build();
    assert_eq!(plan.authorization, Some("Bearer other".to_string()));
    assert_eq!(plan.url, "http://keeper:9978");
}

#[test]
fn bodies_hold_what_they_are_made_of() {
    let e = EnrolBody::new("web1".to_string(), "k".to_string());
    assert_eq!((e.host.as_str(), e.key.as_str()), ("web1", "k"));
    let i = InlineObject::new("web2".to_string(), "q".to_string());
    assert_eq!((i.host.as_str(), i.key.as_str()), ("web2", "q"));
    let line = ReportSummary {
        host: "web1".to_string(),
        job: "backup".to_string(),
        when: Timestamp { secs: 5, nanos: 0 },
        status: 0,
        duration_seconds: 1,
        age_seconds: 2,
    };
    let g = GlobalJobsResult::new(vec![line]);
    assert_eq!(g.summary.len(), 1);
    assert_eq!(g.summary[0].job, "backup");
}

#[test]
fn how_a_command_ended_in_words() {
    let out = |code: Option<i32>, stdout: &str, stderr: &str| CommandOutput {
        code,
        stdout: stdout.as_bytes().to_vec(),
        stderr: stderr.as_bytes().to_vec(),
    };
    assert_eq!(out(Some(1), "", "  boom\n").info(), "exit code 1: boom");
    assert_eq!(out(Some(0), "said on stdout\n", " \n").info(), "exit code 0: said on stdout");
    assert_eq!(out(Some(2), "ignored", "preferred").info(), "exit code 2: preferred");
    assert_eq!(out(Some(-1), "", "").info(), "exit code -1");
    assert_eq!(out(None, "", "killed").info(), "killed");
    assert_eq!(out(None, "", "").info(), "");
    assert_eq!(out(Some(3), "x", "").describe(), "exit code 3: x");
    let bytes = CommandOutput { code: Some(1), stdout: Vec::new(), stderr: b"bad \xff\n".to_vec() };
    assert_eq!(bytes.info(), "exit code 1: bad \u{fffd}");
}
