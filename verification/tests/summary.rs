use keeper::ledger::{report_finish, report_output, report_start, Loaded, Outcome, Verdict};
use keeper::listing::{insert_number, numbered, parse_run, report_numbers};
use keeper::server::global_metrics;
use keeper::store::{FilePath, OutputRecord, PostFile, ReportStore, ReportSummary, StoreError};
use keeper::summary::{Answer, Query, SummaryWalk};
use keeper::time::Timestamp;
use keeper::wire::ReportId;

struct Shelf {
    files: Vec<(Vec<String>, String, PostFile)>,
    extra_dirs: Vec<Vec<String>>,
    listed: Vec<Vec<String>>,
    loaded: Vec<String>,
}

fn copy_record(f: &PostFile) -> PostFile {
    PostFile {
        report_pid: f.report_pid,
        report_uuid: f.report_uuid.clone(),
        report_time: f.report_time,
        time_start: f.time_start,
        time_end: f.time_end,
        script: f.script.clone(),
        duration: f.duration,
        status: f.status,
        output: f
            .output
            .iter()
            .map(|r| OutputRecord { time: r.time, stream: r.stream.clone(), msg: r.msg.clone() })
            .collect(),
        sealed: f.sealed,
    }
}

fn empty_shelf() -> Shelf {
    Shelf { files: Vec::new(), extra_dirs: Vec::new(), listed: Vec::new(), loaded: Vec::new() }
}

fn shelf_get(shelf: &Shelf, path: &FilePath) -> Option<PostFile> {
    shelf.files.iter().find(|(d, f, _)| *d == path.dir && *f == path.file).map(|(_, _, r)| copy_record(r))
}

fn shelf_put(shelf: &mut Shelf, path: FilePath, record: PostFile) {
    shelf.files.retain(|(d, f, _)| !(*d == path.dir && *f == path.file));
    shelf.files.push((path.dir, path.file, record));
}

fn shelf_list(shelf: &Shelf, dir: &Vec<String>, files: bool) -> Vec<String> {
    let mut names: Vec<String> = Vec::new();
    let mut dirs: Vec<&Vec<String>> = shelf.files.iter().map(|(d, _, _)| d).collect();
    dirs.extend(shelf.extra_dirs.iter());
    if files {
        for (d, f, _) in shelf.files.iter() {
            if d == dir {
                names.push(f.clone());
            }
        }
    } else {
        for d in dirs {
            if d.len() > dir.len() && d[..dir.len()] == dir[..] && !names.contains(&d[dir.len()]) {
                names.insert(0, d[dir.len()].clone());
            }
        }
    }
    names
}

fn at_millis(ms: i64) -> Timestamp {
    Timestamp::from_millis(ms)
}

fn id_of(host: &str, job: &str, ms: i64, uuid: &str) -> ReportId {
    ReportId { host: host.to_string(), job: job.to_string(), pid: 7, time: at_millis(ms), uuid: uuid.to_string() }
}

fn settle_on(shelf: &mut Shelf, id: &ReportId, outcome: Outcome) -> Verdict {
    let store = ReportStore::new("/d").ok().unwrap();
    if let Some(f) = outcome.write {
        let (path, _) = store.store(&id.host, &id.job, &id.time).ok().unwrap();
        shelf_put(shelf, path, f);
    }
    outcome.verdict
}

fn found_on(shelf: &Shelf, id: &ReportId) -> Loaded {
    let store = ReportStore::new("/d").ok().unwrap();
    let path = store.load(&id.host, &id.job, &id.time).ok().unwrap();
    match shelf_get(shelf, &path) {
        Some(f) => Loaded::Found(f),
        None => Loaded::Absent,
    }
}

fn whole_run(shelf: &mut Shelf, host: &str, job: &str, ms: i64, finish: Option<(u64, i32)>) {
    let id = id_of(host, job, ms, "U1");
    let found = found_on(shelf, &id);
    let v = settle_on(shelf, &id, report_start(&id, "true", at_millis(ms), found, at_millis(ms + 1)));
    assert!(matches!(v, Verdict::Created));
    if let Some((duration, status)) = finish {
        let found = found_on(shelf, &id);
        let v = settle_on(shelf, &id, report_finish(&id, at_millis(ms + duration as i64), duration, status, found));
        assert!(matches!(v, Verdict::Created));
    }
}

fn overview(shelf: &mut Shelf, perjob: usize, now: Timestamp) -> Result<Vec<ReportSummary>, StoreError> {
    let mut walk: SummaryWalk = ReportStore::new("/d").ok().unwrap().summary(perjob);
    for _ in 0..10_000 {
        let (next, query) = walk.next();
        walk = next;
        match query {
            Query::Done => {
                assert!(walk.is_done());
                return walk.finish();
            }
            Query::List { dir, files } => {
                shelf.listed.push(dir.clone());
                let names = shelf_list(shelf, &dir, files);
                walk = walk.answer(Answer::Names(names));
            }
            Query::Load { path } => {
                shelf.loaded.push(path.file.clone());
                let record = shelf_get(shelf, &path);
                walk = walk.answer(Answer::Record { record, now });
            }
        }
    }
    panic!("the walk does not end");
}

fn brief(lines: &Vec<ReportSummary>) -> Vec<(String, String, i64, i32, i32, i32)> {
    lines
        .iter()
        .map(|l| (l.host.clone(), l.job.clone(), l.when.timestamp_millis().unwrap(), l.status, l.duration_seconds, l.age_seconds))
        .collect()
}

const DAY_MS: i64 = 86_400_000;
const T0: i64 = 1_700_000_000_000;

#[test]
fn start_output_finish_gives_one_line_of_the_overview() {
    let mut shelf = empty_shelf();
    let id = id_of("web1", "backup", T0, "U1");
    let found = found_on(&shelf, &id);
    let v = settle_on(&mut shelf, &id, report_start(&id, "backup.sh", at_millis(T0), found, at_millis(T0 + 5)));
    assert!(matches!(v, Verdict::Created));
    let record = OutputRecord { time: at_millis(T0 + 10), stream: "stdout".to_string(), msg: "done".to_string() };
    let found = found_on(&shelf, &id);
    let v = settle_on(&mut shelf, &id, report_output(&id, record, found));
    assert!(matches!(v, Verdict::Created));
    let found = found_on(&shelf, &id);
    let v = settle_on(&mut shelf, &id, report_finish(&id, at_millis(T0 + 500), 500, 0, found));
    assert!(matches!(v, Verdict::Created));
    let lines = overview(&mut shelf, 1, at_millis(T0 + 90_750)).ok().unwrap();
    assert_eq!(brief(&lines), vec![("web1".to_string(), "backup".to_string(), T0, 0, 0, 90)]);
    let text = global_metrics(&lines);
    assert_eq!(
        text,
        "# TYPE keeper_job_age_seconds gauge\n\
         # HELP keeper_job_age_seconds age of this job report\n\
         keeper_job_age_seconds{host=\"web1\",name=\"backup\"}\t90\n\
         # TYPE keeper_job_duration_seconds gauge\n\
         # HELP keeper_job_duration_seconds for how long did the last job run?\n\
         keeper_job_duration_seconds{host=\"web1\",name=\"backup\"}\t0\n\
         # TYPE keeper_job_ok gauge\n\
         # HELP keeper_job_ok did the last run of this job exit 0?\n\
         keeper_job_ok{host=\"web1\",name=\"backup\"}\t1\n"
    );
}

#[test]
fn one_per_job_is_the_latest_sealed_run_never_an_open_one() {
    let mut shelf = empty_shelf();
    whole_run(&mut shelf, "web1", "backup", T0, Some((1500, 0)));
    whole_run(&mut shelf, "web1", "backup", T0 + 40 * DAY_MS, Some((2500, 3)));
    whole_run(&mut shelf, "web1", "backup", T0 + 40 * DAY_MS + 1000, Some((61_000, 4)));
    whole_run(&mut shelf, "web1", "backup", T0 + 400 * DAY_MS, None);
    whole_run(&mut shelf, "web1", "backup", T0 + 41 * DAY_MS, None);
    whole_run(&mut shelf, "web1", "rotate", T0 + DAY_MS, None);
    whole_run(&mut shelf, "db-2", "vacuum", T0 + 2 * DAY_MS, Some((999, 1)));
    let now = at_millis(T0 + 500 * DAY_MS);
    let lines = overview(&mut shelf, 1, now).ok().unwrap();
    assert_eq!(
        brief(&lines),
        vec![
            ("db-2".to_string(), "vacuum".to_string(), T0 + 2 * DAY_MS, 1, 0, 498 * 86_400),
            ("web1".to_string(), "backup".to_string(), T0 + 40 * DAY_MS + 1000, 4, 61, 460 * 86_400 - 1),
        ]
    );
    assert!(!shelf.loaded.contains(&format!("{}.json", T0)));
    assert!(!shelf.loaded.contains(&format!("{}.json", T0 + 40 * DAY_MS)));
}

#[test]
fn the_overview_takes_as_many_sealed_runs_as_asked_for_latest_first() {
    let mut shelf = empty_shelf();
    for k in 0..5 {
        whole_run(&mut shelf, "web1", "backup", T0 + k * 31 * DAY_MS, Some((1000 * k as u64, k as i32)));
    }
    let now = at_millis(T0 + 500 * DAY_MS);
    let two = overview(&mut shelf, 2, now).ok().unwrap();
    assert_eq!(two.iter().map(|l| l.status).collect::<Vec<i32>>(), vec![4, 3]);
    let many = overview(&mut shelf, 10, now).ok().unwrap();
    assert_eq!(many.iter().map(|l| l.status).collect::<Vec<i32>>(), vec![4, 3, 2, 1, 0]);
    assert_eq!(many.iter().map(|l| l.duration_seconds).collect::<Vec<i32>>(), vec![4, 3, 2, 1, 0]);
    shelf.listed.clear();
    let none = overview(&mut shelf, 0, now).ok().unwrap();
    assert!(none.is_empty());
    let job_dir: Vec<String> = ["/d", "reports", "web1", "backup"].iter().map(|s| s.to_string()).collect();
    assert_eq!(shelf.listed.last(), Some(&job_dir));
    let empty = overview(&mut empty_shelf(), 3, now).ok().unwrap();
    assert!(empty.is_empty());
}

#[test]
fn the_overview_fails_where_the_store_does() {
    let now = at_millis(T0);
    let mut walk = ReportStore::new("/d").ok().unwrap().summary(1);
    walk = walk.answer(Answer::Failed("permission denied".to_string()));
    assert!(walk.is_done());
    match walk.finish() {
        Err(StoreError::Failed(e)) => assert_eq!(e, "permission denied"),
        _ => panic!("the failure is lost"),
    }
    let mut shelf = empty_shelf();
    whole_run(&mut shelf, "web1", "backup", T0, Some((1, 0)));
    let dir: Vec<String> = ["/d", "reports", "Bad Host", "job", "2023", "11", "14"].iter().map(|s| s.to_string()).collect();
    shelf.files.push((dir, "5.json".to_string(), copy_record(&shelf.files[0].2)));
    assert!(matches!(overview(&mut shelf, 1, now), Err(StoreError::InvalidName)));
    let walk = ReportStore::new("/d").ok().unwrap().summary(1);
    let walk = walk.answer(Answer::Record { record: None, now });
    match walk.finish() {
        Err(StoreError::Failed(e)) => assert_eq!(e, "unexpected answer"),
        _ => panic!("the failure is lost"),
    }
    let mut far = empty_shelf();
    whole_run(&mut far, "web1", "backup", T0, Some((1, 0)));
    assert!(matches!(
        overview(&mut far, 1, Timestamp { secs: i64::MAX, nanos: 0 }),
        Err(StoreError::TimeOutOfRange)
    ));
}

#[test]
fn listings_are_read_as_numbers_latest_first() {
    let names: Vec<String> = ["2023", "2024", "x", "02023", "+7", "", "2024"].iter().map(|s| s.to_string()).collect();
    assert_eq!(numbered(&names), vec![2024, 2023, 7]);
    let files: Vec<String> =
        ["5.json", "17.json", "5.json.json", "-3.json", "note.txt", "9", "x.json", ".json", "17.json"]
            .iter()
            .map(|s| s.to_string())
            .collect();
    assert_eq!(report_numbers(&files), vec![17, 5, -3]);
    assert_eq!(parse_run("1700000000000.json"), Some(1_700_000_000_000));
    assert_eq!(parse_run("1700000000000"), None);
    assert_eq!(parse_run("1700000000000.json.tmp"), None);
    assert_eq!(parse_run("12.json.json"), Some(12));
    let mut v = vec![9, 5, 1];
    insert_number(&mut v, 6);
    insert_number(&mut v, 5);
    insert_number(&mut v, 10);
    insert_number(&mut v, 0);
    assert_eq!(v, vec![10, 9, 6, 5, 1, 0]);
}

#[test]
fn hosts_and_jobs_are_walked_by_name() {
    let mut shelf = empty_shelf();
    for host in ["zeta", "alpha", "mid"] {
        for job in ["b-job", "a-job"] {
            whole_run(&mut shelf, host, job, T0, Some((1, 0)));
        }
    }
    let lines = overview(&mut shelf, 1, at_millis(T0 + 1)).ok().unwrap();
    let order: Vec<String> = lines.iter().map(|l| format!("{}/{}", l.host, l.job)).collect();
    assert_eq!(order, vec!["alpha/a-job", "alpha/b-job", "mid/a-job", "mid/b-job", "zeta/a-job", "zeta/b-job"]);
}
