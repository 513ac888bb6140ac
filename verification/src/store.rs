//! What the collector keeps: credentials, run records, and where each of
//! them lives under the data directory.

use vstd::prelude::*;
use vstd::string::StringExecFns;
use crate::names::{name_ok, name_ok_spec};
use crate::text::{decimal, decimal_text, texts, lemma_texts_push};
use crate::time::{elapsed_seconds, format_utc, formatted_utc, seconds_between, Timestamp};

verus! {

/// A credential as it is kept on disk.
#[derive(Debug)]
pub struct KeyFile {
    pub host: String,
    pub key: String,
    pub time_create: Timestamp,
    pub global_view: bool,
}

/// What a `KeyFile` holds.
pub struct KeyFileView {
    pub host: Seq<char>,
    pub key: Seq<char>,
    pub time_create: Timestamp,
    pub global_view: bool,
}

impl View for KeyFile {
    type V = KeyFileView;

    open spec fn view(&self) -> KeyFileView {
        KeyFileView {
            host: self.host@,
            key: self.key@,
            time_create: self.time_create,
            global_view: self.global_view,
        }
    }
}

/// The identity that a credential stands for.
#[derive(Debug)]
pub struct Auth {
    pub host: String,
    pub global_view: bool,
}

/// What an `Auth` holds.
pub struct AuthView {
    pub host: Seq<char>,
    pub global_view: bool,
}

impl View for Auth {
    type V = AuthView;

    open spec fn view(&self) -> AuthView {
        AuthView { host: self.host@, global_view: self.global_view }
    }
}

/// One line that a job wrote, or one message about the run.
#[derive(Debug)]
pub struct OutputRecord {
    pub time: Timestamp,
    pub stream: String,
    pub msg: String,
}

/// What an `OutputRecord` holds.
pub struct OutputRecordView {
    pub time: Timestamp,
    pub stream: Seq<char>,
    pub msg: Seq<char>,
}

impl View for OutputRecord {
    type V = OutputRecordView;

    open spec fn view(&self) -> OutputRecordView {
        OutputRecordView { time: self.time, stream: self.stream@, msg: self.msg@ }
    }
}

impl OutputRecord {
    /// Whether two records hold the same stream, message and time.
    pub fn same(&self, other: &OutputRecord) -> (r: bool)
        ensures
            r == (self@ == other@),
    {
        self.time == other.time && self.stream == other.stream && self.msg == other.msg
    }
}

/// What a list of output records holds.
pub open spec fn records_view(v: Seq<OutputRecord>) -> Seq<OutputRecordView> {
    Seq::new(v.len(), |i: int| v[i]@)
}

/// The persisted document of one run.
#[derive(Debug)]
pub struct PostFile {
    pub report_pid: u32,
    pub report_uuid: String,
    pub report_time: Timestamp,
    pub time_start: Timestamp,
    pub time_end: Option<Timestamp>,
    pub script: String,
    pub duration: Option<u64>,
    pub status: Option<i32>,
    pub output: Vec<OutputRecord>,
    pub sealed: bool,
}

/// What a `PostFile` holds.
pub struct PostFileView {
    pub report_pid: u32,
    pub report_uuid: Seq<char>,
    pub report_time: Timestamp,
    pub time_start: Timestamp,
    pub time_end: Option<Timestamp>,
    pub script: Seq<char>,
    pub duration: Option<u64>,
    pub status: Option<i32>,
    pub output: Seq<OutputRecordView>,
    pub sealed: bool,
}

impl View for PostFile {
    type V = PostFileView;

    open spec fn view(&self) -> PostFileView {
        PostFileView {
            report_pid: self.report_pid,
            report_uuid: self.report_uuid@,
            report_time: self.report_time,
            time_start: self.time_start,
            time_end: self.time_end,
            script: self.script@,
            duration: self.duration,
            status: self.status,
            output: records_view(self.output@),
            sealed: self.sealed,
        }
    }
}

impl PostFileView {
    /// A run is sealed exactly when its end time, duration and exit status
    /// are all recorded.
    pub open spec fn wf(self) -> bool {
        self.sealed <==> (self.time_end is Some && self.duration is Some && self.status is Some)
    }
}

/// A signed count held to the range of a non-negative 32-bit number.
pub open spec fn clamp(v: int) -> int {
    if v < 0 {
        0
    } else if v > i32::MAX {
        i32::MAX as int
    } else {
        v
    }
}

/// Holds a signed count to the range `0..=i32::MAX`.
pub fn i64ton(v: i64) -> (r: i32)
    ensures
        r == clamp(v as int),
{
    if v < 0 {
        0
    } else if v > i32::MAX as i64 {
        i32::MAX
    } else {
        v as i32
    }
}

/// Holds an unsigned count to the range `0..=i32::MAX`.
pub fn u64ton(v: u64) -> (r: i32)
    ensures
        r == clamp(v as int),
{
    if v > i32::MAX as u64 {
        i32::MAX
    } else {
        v as i32
    }
}

/// Whole seconds from `then` to `now`, held to `0..=i32::MAX`; `None` where
/// the calendar cannot represent one of the two.
pub open spec fn age_seconds_spec(then: Timestamp, now: Timestamp) -> Option<i32> {
    match elapsed_seconds(now.secs as int, now.nanos as int, then.secs as int, then.nanos as int) {
        Some(s) => Some(clamp(s as int) as i32),
        None => None,
    }
}

/// How long ago `then` was, seen from `now`, in whole seconds.
pub fn age_seconds(then: &Timestamp, now: &Timestamp) -> (r: Option<i32>)
    ensures
        r == age_seconds_spec(*then, *now),
{
    match seconds_between(now, then) {
        Some(s) => Some(i64ton(s)),
        None => None,
    }
}

impl PostFile {
    /// A run is sealed exactly when its end time, duration and exit status
    /// are all recorded.
    pub fn is_wf(&self) -> (r: bool)
        ensures
            r == self@.wf(),
    {
        self.sealed == (self.time_end.is_some() && self.duration.is_some()
            && self.status.is_some())
    }

    /// How long the run took, in whole seconds.
    pub fn duration_seconds(&self) -> (r: i32)
        requires
            self.duration is Some,
        ensures
            r == clamp(self.duration->0 as int / 1000),
    {
        match self.duration {
            Some(d) => u64ton(d / 1000),
            None => 0,
        }
    }
}

/// One line of the overview of recent runs.
#[derive(Debug)]
pub struct ReportSummary {
    pub host: String,
    pub job: String,
    pub when: Timestamp,
    pub status: i32,
    pub duration_seconds: i32,
    pub age_seconds: i32,
}

/// What a `ReportSummary` holds.
pub struct ReportSummaryView {
    pub host: Seq<char>,
    pub job: Seq<char>,
    pub when: Timestamp,
    pub status: i32,
    pub duration_seconds: i32,
    pub age_seconds: i32,
}

impl View for ReportSummary {
    type V = ReportSummaryView;

    open spec fn view(&self) -> ReportSummaryView {
        ReportSummaryView {
            host: self.host@,
            job: self.job@,
            when: self.when,
            status: self.status,
            duration_seconds: self.duration_seconds,
            age_seconds: self.age_seconds,
        }
    }
}

} // verus!

verus! {

/// Why the store cannot do what it was asked.
#[derive(Debug)]
pub enum StoreError {
    /// A host or job name that may not become part of a path.
    InvalidName,
    /// A time for which the calendar has no date, or no count of
    /// milliseconds.
    TimeOutOfRange,
    /// Two credentials hold the same key.
    DuplicateKeys { first: String, second: String },
    /// Reading or writing failed; the text describes why.
    Failed(String),
}

/// What a `StoreError` holds.
pub enum StoreErrorView {
    InvalidName,
    TimeOutOfRange,
    DuplicateKeys { first: Seq<char>, second: Seq<char> },
    Failed(Seq<char>),
}

impl View for StoreError {
    type V = StoreErrorView;

    open spec fn view(&self) -> StoreErrorView {
        match self {
            StoreError::InvalidName => StoreErrorView::InvalidName,
            StoreError::TimeOutOfRange => StoreErrorView::TimeOutOfRange,
            StoreError::DuplicateKeys { first, second } => StoreErrorView::DuplicateKeys {
                first: first@,
                second: second@,
            },
            StoreError::Failed(e) => StoreErrorView::Failed(e@),
        }
    }
}

/// Where a document is kept: the directories that lead to it, outermost
/// first, and the name of its file.
#[derive(Debug)]
pub struct FilePath {
    pub dir: Vec<String>,
    pub file: String,
}

/// What a `FilePath` holds.
pub struct FilePathView {
    pub dir: Seq<Seq<char>>,
    pub file: Seq<char>,
}

impl View for FilePath {
    type V = FilePathView;

    open spec fn view(&self) -> FilePathView {
        FilePathView { dir: texts(self.dir@), file: self.file@ }
    }
}

/// The name under which a file is written before it takes its place.
pub open spec fn temporary_name(file: Seq<char>) -> Seq<char> {
    file + ".tmp"@
}

impl FilePath {
    /// Where a document bound for this place is written first: beside it,
    /// so that putting it in place is a change of name and readers never
    /// see it half written.
    pub fn temporary(&self) -> (tmp: FilePath)
        ensures
            tmp@ == (FilePathView { dir: self@.dir, file: temporary_name(self@.file) }),
    {
        let mut dir: Vec<String> = Vec::new();
        let mut i: usize = 0;
        while i < self.dir.len()
            invariant
                i <= self.dir.len(),
                texts(dir@) == texts(self.dir@).take(i as int),
            decreases self.dir.len() - i,
        {
            proof {
                lemma_texts_push(dir@, self.dir@[i as int]);
                assert(texts(self.dir@).take(i as int).push(self.dir@[i as int]@) =~= texts(
                    self.dir@,
                ).take(i + 1));
            }
            dir.push(self.dir[i].clone());
            i += 1;
        }
        assert(texts(self.dir@).take(self.dir.len() as int) =~= texts(self.dir@));
        let mut file = self.file.clone();
        file.append(".tmp");
        FilePath { dir, file }
    }
}

/// The name of the file that holds the run that began at `millis`.
pub open spec fn report_file(millis: int) -> Seq<char> {
    decimal_text(millis) + ".json"@
}

/// The directory that holds the jobs of `host`, and so on down to the runs
/// of one day: `parts` are the names below the directory of all reports.
pub open spec fn reports_dir(root: Seq<char>, parts: Seq<Seq<char>>) -> Seq<Seq<char>> {
    seq![root, "reports"@] + parts
}

/// Where the run of `job` on `host` that began at `time` is kept: below the
/// host and the job, in the directories of the year, month and day that
/// `time` falls on, under the milliseconds of `time`.
pub open spec fn reportpath_spec(
    root: Seq<char>,
    host: Seq<char>,
    job: Seq<char>,
    time: Timestamp,
) -> Result<FilePathView, StoreErrorView> {
    if !name_ok_spec(host) || !name_ok_spec(job) {
        Err(StoreErrorView::InvalidName)
    } else {
        match (
            formatted_utc(time.secs as int, time.nanos as int, "%Y"@),
            formatted_utc(time.secs as int, time.nanos as int, "%m"@),
            formatted_utc(time.secs as int, time.nanos as int, "%d"@),
        ) {
            (Some(y), Some(m), Some(d)) => if i64::MIN <= time.millis() <= i64::MAX {
                Ok(
                    FilePathView {
                        dir: reports_dir(root, seq![host, job, y, m, d]),
                        file: report_file(time.millis()),
                    },
                )
            } else {
                Err(StoreErrorView::TimeOutOfRange)
            },
            _ => Err(StoreErrorView::TimeOutOfRange),
        }
    }
}

/// The reports below a data directory.
#[derive(Debug)]
pub struct ReportStore {
    dir: String,
}

impl ReportStore {
    /// The data directory.
    pub closed spec fn root(&self) -> Seq<char> {
        self.dir@
    }

    /// The store of the reports below the data directory `dir`.
    pub fn new(dir: &str) -> (r: Result<ReportStore, StoreError>)
        ensures
            r is Ok,
            r->Ok_0.root() == dir@,
    {
        Ok(ReportStore { dir: dir.to_owned() })
    }

    /// The data directory.
    pub fn data_dir(&self) -> (r: &str)
        ensures
            r@ == self.root(),
    {
        self.dir.as_str()
    }

    /// The directory below the directory of all reports that `parts` lead
    /// to.
    pub fn reports_path(&self, parts: Vec<String>) -> (path: Vec<String>)
        ensures
            texts(path@) == reports_dir(self.root(), texts(parts@)),
    {
        let mut path: Vec<String> = Vec::new();
        path.push(self.dir.clone());
        path.push(String::from_str("reports"));
        let mut i: usize = 0;
        while i < parts.len()
            invariant
                i <= parts.len(),
                texts(path@) == reports_dir(self.root(), texts(parts@).take(i as int)),
            decreases parts.len() - i,
        {
            proof {
                lemma_texts_push(path@, parts@[i as int]);
                assert(reports_dir(self.root(), texts(parts@).take(i as int)).push(
                    parts@[i as int]@,
                ) =~= reports_dir(self.root(), texts(parts@).take(i + 1)));
            }
            path.push(parts[i].clone());
            i += 1;
        }
        assert(texts(parts@).take(parts.len() as int) =~= texts(parts@));
        path
    }

    /// Where the run of `job` on `host` is kept that began `millis`
    /// milliseconds after the start of 1970, on the day that the calendar
    /// writes as `year`, `month` and `day`.
    pub fn dated_path(
        &self,
        host: &str,
        job: &str,
        year: String,
        month: String,
        day: String,
        millis: i64,
    ) -> (path: FilePath)
        ensures
            path@ == (FilePathView {
                dir: reports_dir(self.root(), seq![host@, job@, year@, month@, day@]),
                file: report_file(millis as int),
            }),
    {
        let mut parts: Vec<String> = Vec::new();
        parts.push(host.to_owned());
        parts.push(job.to_owned());
        parts.push(year);
        parts.push(month);
        parts.push(day);
        assert(texts(parts@) =~= seq![host@, job@, year@, month@, day@]);
        let mut file = decimal(millis);
        file.append(".json");
        FilePath { dir: self.reports_path(parts), file }
    }

    /// Where the run of `job` on `host` that began at `time` is kept. Names
    /// that may not become part of a path are refused.
    pub fn reportpath(&self, host: &str, job: &str, time: &Timestamp) -> (r: Result<
        FilePath,
        StoreError,
    >)
        ensures
            match reportpath_spec(self.root(), host@, job@, *time) {
                Ok(p) => r is Ok && r->Ok_0@ == p,
                Err(e) => r is Err && r->Err_0@ == e,
            },
    {
        if !name_ok(host) || !name_ok(job) {
            return Err(StoreError::InvalidName);
        }
        let year = format_utc(time, "%Y");
        let month = format_utc(time, "%m");
        let day = format_utc(time, "%d");
        match (year, month, day, time.timestamp_millis()) {
            (Some(y), Some(m), Some(d), Some(millis)) => Ok(
                self.dated_path(host, job, y, m, d, millis),
            ),
            _ => Err(StoreError::TimeOutOfRange),
        }
    }

    /// Where to read the run of `job` on `host` that began at `time`.
    pub fn load(&self, host: &str, job: &str, time: &Timestamp) -> (r: Result<
        FilePath,
        StoreError,
    >)
        ensures
            match reportpath_spec(self.root(), host@, job@, *time) {
                Ok(p) => r is Ok && r->Ok_0@ == p,
                Err(e) => r is Err && r->Err_0@ == e,
            },
    {
        self.reportpath(host, job, time)
    }

    /// Where to write the run of `job` on `host` that began at `time`, and
    /// whether the file is private: a report is not.
    pub fn store(&self, host: &str, job: &str, time: &Timestamp) -> (r: Result<
        (FilePath, bool),
        StoreError,
    >)
        ensures
            match reportpath_spec(self.root(), host@, job@, *time) {
                Ok(p) => r is Ok && r->Ok_0.0@ == p && !r->Ok_0.1,
                Err(e) => r is Err && r->Err_0@ == e,
            },
    {
        match self.reportpath(host, job, time) {
            Ok(path) => Ok((path, false)),
            Err(e) => Err(e),
        }
    }
}

} // verus!

verus! {

/// The words for a failure of the store.
pub open spec fn describe_spec(e: StoreErrorView) -> Seq<char> {
    match e {
        StoreErrorView::InvalidName => "invalid host or job name"@,
        StoreErrorView::TimeOutOfRange => "time out of range"@,
        StoreErrorView::DuplicateKeys { first, second } => "duplicate keys? "@ + first + " and "@
            + second,
        StoreErrorView::Failed(e) => e,
    }
}

impl StoreError {
    /// The words for this failure.
    pub fn describe(&self) -> (s: String)
        ensures
            s@ == describe_spec(self@),
    {
        match self {
            StoreError::InvalidName => String::from_str("invalid host or job name"),
            StoreError::TimeOutOfRange => String::from_str("time out of range"),
            StoreError::DuplicateKeys { first, second } => {
                let mut s = String::from_str("duplicate keys? ");
                s.append(first.as_str());
                s.append(" and ");
                s.append(second.as_str());
                s
            },
            StoreError::Failed(e) => e.clone(),
        }
    }
}

} // verus!
