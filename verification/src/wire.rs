//! What travels between the reporting client and the collector.

use vstd::prelude::*;
use crate::common::genkey;
use crate::names::is_key_char;
use crate::store::{OutputRecord, OutputRecordView};
use crate::time::Timestamp;

verus! {

/// Length of the identifier that tells one run from another.
pub const RUN_UUID_LENGTH: usize = 32;

/// The identity of one run.
#[derive(Debug)]
pub struct ReportId {
    pub host: String,
    pub job: String,
    pub pid: u32,
    pub time: Timestamp,
    pub uuid: String,
}

/// What a `ReportId` holds.
pub struct ReportIdView {
    pub host: Seq<char>,
    pub job: Seq<char>,
    pub pid: u32,
    pub time: Timestamp,
    pub uuid: Seq<char>,
}

impl View for ReportId {
    type V = ReportIdView;

    open spec fn view(&self) -> ReportIdView {
        ReportIdView {
            host: self.host@,
            job: self.job@,
            pid: self.pid,
            time: self.time,
            uuid: self.uuid@,
        }
    }
}

impl ReportId {
    /// The identity of a run of `job` that starts now on `host`, under a
    /// fresh random identifier.
    pub fn new(host: &str, job: &str, pid: u32, now: Timestamp) -> (id: ReportId)
        ensures
            id@.host == host@,
            id@.job == job@,
            id@.pid == pid,
            id@.time == now,
            id@.uuid.len() == RUN_UUID_LENGTH,
            forall|i: int| 0 <= i < id@.uuid.len() ==> is_key_char(#[trigger] id@.uuid[i]),
    {
        ReportId {
            host: host.to_owned(),
            job: job.to_owned(),
            pid,
            time: now,
            uuid: genkey(RUN_UUID_LENGTH),
        }
    }

    /// A copy of this identity.
    pub fn duplicate(&self) -> (id: ReportId)
        ensures
            id@ == self@,
    {
        ReportId {
            host: self.host.clone(),
            job: self.job.clone(),
            pid: self.pid,
            time: self.time,
            uuid: self.uuid.clone(),
        }
    }
}

/// One request to the collector.
#[derive(Debug)]
pub enum Request {
    Start { id: ReportId, script: String, start_time: Timestamp },
    Output { id: ReportId, record: OutputRecord },
    Finish { id: ReportId, end_time: Timestamp, duration_millis: u64, exit_status: i32 },
}

/// What a `Request` holds.
pub enum RequestView {
    Start { id: ReportIdView, script: Seq<char>, start_time: Timestamp },
    Output { id: ReportIdView, record: OutputRecordView },
    Finish { id: ReportIdView, end_time: Timestamp, duration_millis: u64, exit_status: i32 },
}

impl View for Request {
    type V = RequestView;

    open spec fn view(&self) -> RequestView {
        match self {
            Request::Start { id, script, start_time } => RequestView::Start {
                id: id@,
                script: script@,
                start_time: *start_time,
            },
            Request::Output { id, record } => RequestView::Output { id: id@, record: record@ },
            Request::Finish { id, end_time, duration_millis, exit_status } => RequestView::Finish {
                id: id@,
                end_time: *end_time,
                duration_millis: *duration_millis,
                exit_status: *exit_status,
            },
        }
    }
}

} // verus!
