//! The life of a run record: started, added to, sealed. Every step may be
//! asked for again and again without harm.

use vstd::prelude::*;
use crate::store::{records_view, OutputRecord, OutputRecordView, PostFile, PostFileView};
use crate::time::Timestamp;
use crate::wire::{ReportId, ReportIdView};

verus! {

/// What was found where the record of a run is kept.
#[derive(Debug)]
pub enum Loaded {
    /// The record of the run.
    Found(PostFile),
    /// Nothing: the run is not known.
    Absent,
    /// The place could not be read.
    Failed,
}

/// What a `Loaded` holds.
pub enum LoadedView {
    Found(PostFileView),
    Absent,
    Failed,
}

impl View for Loaded {
    type V = LoadedView;

    open spec fn view(&self) -> LoadedView {
        match self {
            Loaded::Found(f) => LoadedView::Found(f@),
            Loaded::Absent => LoadedView::Absent,
            Loaded::Failed => LoadedView::Failed,
        }
    }
}

/// How a request to change a run was settled.
#[derive(Debug)]
pub enum Verdict {
    /// The change was made.
    Created,
    /// The change had been made before; nothing was done.
    Existed,
    /// Another run holds this place.
    UuidMismatch,
    /// The run is sealed and takes no more of this.
    AlreadyComplete,
    /// The run was never started.
    NoSuchJob,
    /// The record could not be read.
    LoadFailed,
}

/// A settled request: the verdict, and the record to write if the request
/// changed it.
#[derive(Debug)]
pub struct Outcome {
    pub verdict: Verdict,
    pub write: Option<PostFile>,
}

/// What an `Outcome` holds.
pub struct Step {
    pub verdict: Verdict,
    pub write: Option<PostFileView>,
}

impl View for Outcome {
    type V = Step;

    open spec fn view(&self) -> Step {
        Step {
            verdict: self.verdict,
            write: match self.write {
                Some(f) => Some(f@),
                None => None,
            },
        }
    }
}

/// A request that changes nothing.
pub open spec fn settled(verdict: Verdict) -> Step {
    Step { verdict: verdict, write: None }
}

/// The record of a run that has just started.
pub open spec fn fresh_record(
    id: ReportIdView,
    script: Seq<char>,
    start_time: Timestamp,
    now: Timestamp,
) -> PostFileView {
    PostFileView {
        report_pid: id.pid,
        report_uuid: id.uuid,
        report_time: now,
        time_start: start_time,
        time_end: None,
        script: script,
        duration: None,
        status: None,
        output: Seq::empty(),
        sealed: false,
    }
}

/// Start: a run that is not known is created open and empty. A run that is
/// known under another identifier, or is sealed, is a conflict; one that is
/// open under the same identifier is left as it is.
pub open spec fn start_step(
    loaded: LoadedView,
    id: ReportIdView,
    script: Seq<char>,
    start_time: Timestamp,
    now: Timestamp,
) -> Step {
    match loaded {
        LoadedView::Found(f) => if f.report_uuid != id.uuid {
            settled(Verdict::UuidMismatch)
        } else if f.sealed {
            settled(Verdict::AlreadyComplete)
        } else {
            settled(Verdict::Existed)
        },
        LoadedView::Absent => Step {
            verdict: Verdict::Created,
            write: Some(fresh_record(id, script, start_time, now)),
        },
        LoadedView::Failed => settled(Verdict::LoadFailed),
    }
}

/// Output: a line is added to the end of an open run unless the run holds
/// the very same line already.
pub open spec fn output_step(loaded: LoadedView, id: ReportIdView, record: OutputRecordView) -> Step {
    match loaded {
        LoadedView::Found(f) => if f.report_uuid != id.uuid {
            settled(Verdict::UuidMismatch)
        } else if f.sealed {
            settled(Verdict::AlreadyComplete)
        } else if f.output.contains(record) {
            settled(Verdict::Existed)
        } else {
            Step {
                verdict: Verdict::Created,
                write: Some(PostFileView { output: f.output.push(record), ..f }),
            }
        },
        LoadedView::Absent => settled(Verdict::NoSuchJob),
        LoadedView::Failed => settled(Verdict::LoadFailed),
    }
}

/// Finish: an open run is sealed with the end time, duration and exit
/// status given. A sealed run stays as the first finish left it.
pub open spec fn finish_step(
    loaded: LoadedView,
    id: ReportIdView,
    end_time: Timestamp,
    duration_millis: u64,
    exit_status: i32,
) -> Step {
    match loaded {
        LoadedView::Found(f) => if f.report_uuid != id.uuid {
            settled(Verdict::UuidMismatch)
        } else if f.sealed {
            settled(Verdict::Existed)
        } else {
            Step {
                verdict: Verdict::Created,
                write: Some(
                    PostFileView {
                        duration: Some(duration_millis),
                        time_end: Some(end_time),
                        status: Some(exit_status),
                        sealed: true,
                        ..f
                    },
                ),
            }
        },
        LoadedView::Absent => settled(Verdict::NoSuchJob),
        LoadedView::Failed => settled(Verdict::LoadFailed),
    }
}

fn settle(verdict: Verdict) -> (o: Outcome)
    ensures
        o@ == settled(verdict),
{
    Outcome { verdict, write: None }
}

/// Whether `output` holds a record equal to `record`.
pub fn holds_record(output: &Vec<OutputRecord>, record: &OutputRecord) -> (r: bool)
    ensures
        r == records_view(output@).contains(record@),
{
    let ghost view = records_view(output@);
    let mut i: usize = 0;
    while i < output.len()
        invariant
            i <= output.len(),
            view == records_view(output@),
            forall|j: int| 0 <= j < i ==> view[j] != record@,
        decreases output.len() - i,
    {
        if output[i].same(record) {
            assert(view[i as int] == record@);
            return true;
        }
        i += 1;
    }
    false
}

/// Settles a request to start the run `id`, given what is kept in its
/// place.
pub fn report_start(
    id: &ReportId,
    script: &str,
    start_time: Timestamp,
    loaded: Loaded,
    now: Timestamp,
) -> (o: Outcome)
    ensures
        o@ == start_step(loaded@, id@, script@, start_time, now),
{
    match loaded {
        Loaded::Found(f) => {
            if id.uuid != f.report_uuid {
                settle(Verdict::UuidMismatch)
            } else if f.sealed {
                settle(Verdict::AlreadyComplete)
            } else {
                settle(Verdict::Existed)
            }
        },
        Loaded::Absent => {
            let pf = PostFile {
                sealed: false,
                report_uuid: id.uuid.clone(),
                report_time: now,
                report_pid: id.pid,
                time_start: start_time,
                time_end: None,
                duration: None,
                status: None,
                output: Vec::new(),
                script: script.to_owned(),
            };
            assert(pf@.output =~= Seq::<OutputRecordView>::empty());
            Outcome { verdict: Verdict::Created, write: Some(pf) }
        },
        Loaded::Failed => settle(Verdict::LoadFailed),
    }
}

/// Settles a request to add `record` to the run `id`, given what is kept in
/// its place.
pub fn report_output(id: &ReportId, record: OutputRecord, loaded: Loaded) -> (o: Outcome)
    ensures
        o@ == output_step(loaded@, id@, record@),
{
    match loaded {
        Loaded::Found(f) => {
            if id.uuid != f.report_uuid {
                settle(Verdict::UuidMismatch)
            } else if f.sealed {
                settle(Verdict::AlreadyComplete)
            } else if holds_record(&f.output, &record) {
                settle(Verdict::Existed)
            } else {
                let ghost before = f@;
                let mut f = f;
                f.output.push(record);
                assert(f@.output =~= before.output.push(record@));
                Outcome { verdict: Verdict::Created, write: Some(f) }
            }
        },
        Loaded::Absent => settle(Verdict::NoSuchJob),
        Loaded::Failed => settle(Verdict::LoadFailed),
    }
}

/// Settles a request to finish the run `id`, given what is kept in its
/// place.
pub fn report_finish(
    id: &ReportId,
    end_time: Timestamp,
    duration_millis: u64,
    exit_status: i32,
    loaded: Loaded,
) -> (o: Outcome)
    ensures
        o@ == finish_step(loaded@, id@, end_time, duration_millis, exit_status),
{
    match loaded {
        Loaded::Found(f) => {
            if id.uuid != f.report_uuid {
                settle(Verdict::UuidMismatch)
            } else if f.sealed {
                settle(Verdict::Existed)
            } else {
                let mut f = f;
                f.duration = Some(duration_millis);
                f.time_end = Some(end_time);
                f.status = Some(exit_status);
                f.sealed = true;
                Outcome { verdict: Verdict::Created, write: Some(f) }
            }
        },
        Loaded::Absent => settle(Verdict::NoSuchJob),
        Loaded::Failed => settle(Verdict::LoadFailed),
    }
}

} // verus!

verus! {

/// Whether a verdict reports success to the client.
pub open spec fn accepted(verdict: Verdict) -> bool {
    verdict is Created || verdict is Existed
}

/// What the ledger gives for the place `k`: the record kept there, if any.
pub open spec fn lookup<K>(ledger: Map<K, PostFileView>, k: K) -> LoadedView {
    if ledger.dom().contains(k) {
        LoadedView::Found(ledger[k])
    } else {
        LoadedView::Absent
    }
}

/// The ledger once a settled request for the place `k` has been carried
/// out.
pub open spec fn carried_out<K>(ledger: Map<K, PostFileView>, k: K, step: Step) -> Map<
    K,
    PostFileView,
> {
    match step.write {
        Some(f) => ledger.insert(k, f),
        None => ledger,
    }
}

/// Starting a run twice with the same arguments: whenever the first start
/// is accepted, the second reports that the run existed already and leaves
/// the ledger as the first left it.
pub proof fn lemma_start_twice<K>(
    ledger: Map<K, PostFileView>,
    k: K,
    id: ReportIdView,
    script: Seq<char>,
    start_time: Timestamp,
    now: Timestamp,
    later: Timestamp,
)
    requires
        accepted(start_step(lookup(ledger, k), id, script, start_time, now).verdict),
    ensures
        ({
            let first = start_step(lookup(ledger, k), id, script, start_time, now);
            let after = carried_out(ledger, k, first);
            let second = start_step(lookup(after, k), id, script, start_time, later);
            &&& second.verdict is Existed
            &&& carried_out(after, k, second) == after
        }),
{
}

/// Two starts for one place under different identifiers: whichever is
/// accepted first, the other is a conflict and changes nothing.
pub proof fn lemma_start_other_uuid<K>(
    ledger: Map<K, PostFileView>,
    k: K,
    a: ReportIdView,
    b: ReportIdView,
    script_a: Seq<char>,
    script_b: Seq<char>,
    start_a: Timestamp,
    start_b: Timestamp,
    now: Timestamp,
    later: Timestamp,
)
    requires
        a.uuid != b.uuid,
    ensures
        ({
            let first = start_step(lookup(ledger, k), a, script_a, start_a, now);
            let after = carried_out(ledger, k, first);
            let second = start_step(lookup(after, k), b, script_b, start_b, later);
            accepted(first.verdict) ==> second == settled(Verdict::UuidMismatch)
        }),
        ({
            let first = start_step(lookup(ledger, k), b, script_b, start_b, now);
            let after = carried_out(ledger, k, first);
            let second = start_step(lookup(after, k), a, script_a, start_a, later);
            accepted(first.verdict) ==> second == settled(Verdict::UuidMismatch)
        }),
{
}

/// A record kept under one identifier turns away every request that names
/// another, and is not changed by it.
pub proof fn lemma_other_uuid_conflicts(
    f: PostFileView,
    id: ReportIdView,
    script: Seq<char>,
    record: OutputRecordView,
    t: Timestamp,
    now: Timestamp,
    duration_millis: u64,
    exit_status: i32,
)
    requires
        f.report_uuid != id.uuid,
    ensures
        start_step(LoadedView::Found(f), id, script, t, now) == settled(Verdict::UuidMismatch),
        output_step(LoadedView::Found(f), id, record) == settled(Verdict::UuidMismatch),
        finish_step(LoadedView::Found(f), id, t, duration_millis, exit_status) == settled(
            Verdict::UuidMismatch,
        ),
{
}

/// A line that the run holds already is not added again: the request is
/// answered as a replay and nothing is written.
pub proof fn lemma_output_replay(f: PostFileView, id: ReportIdView, record: OutputRecordView)
    requires
        f.report_uuid == id.uuid,
        !f.sealed,
        f.output.contains(record),
    ensures
        output_step(LoadedView::Found(f), id, record) == settled(Verdict::Existed),
{
}

/// The record after each of `records` has been offered to it in turn.
pub open spec fn offered(f: PostFileView, id: ReportIdView, records: Seq<OutputRecordView>) -> PostFileView
    decreases records.len(),
{
    if records.len() == 0 {
        f
    } else {
        let before = offered(f, id, records.drop_last());
        match output_step(LoadedView::Found(before), id, records.last()).write {
            Some(after) => after,
            None => before,
        }
    }
}

/// Lines that differ from each other and from those already held are all
/// kept, in the order in which they were offered: an empty run that is
/// offered N distinct lines holds exactly those N.
pub proof fn lemma_outputs_in_order(
    f: PostFileView,
    id: ReportIdView,
    records: Seq<OutputRecordView>,
)
    requires
        f.report_uuid == id.uuid,
        !f.sealed,
        (f.output + records).no_duplicates(),
    ensures
        offered(f, id, records) == (PostFileView { output: f.output + records, ..f }),
        forall|i: int|
            0 <= i < records.len() ==> (#[trigger] output_step(
                LoadedView::Found(offered(f, id, records.take(i))),
                id,
                records[i],
            )).verdict is Created,
    decreases records.len(),
{
    if records.len() == 0 {
        assert(f.output + records =~= f.output);
    } else {
        let head = records.drop_last();
        let all = f.output + records;
        assert((f.output + head).no_duplicates()) by {
            assert forall|i: int, j: int|
                0 <= i < (f.output + head).len() && 0 <= j < (f.output + head).len() && i
                    != j implies (f.output + head)[i] != (f.output + head)[j] by {
                assert((f.output + head)[i] == all[i]);
                assert((f.output + head)[j] == all[j]);
            }
        }
        lemma_outputs_in_order(f, id, head);
        let before = offered(f, id, head);
        assert(!before.output.contains(records.last())) by {
            if before.output.contains(records.last()) {
                let i = choose|i: int|
                    0 <= i < before.output.len() && before.output[i] == records.last();
                assert(all[i] == before.output[i]);
                assert(all[all.len() - 1] == records.last());
            }
        }
        assert((f.output + head).push(records.last()) =~= f.output + records);
        assert forall|i: int| 0 <= i < records.len() implies (#[trigger] output_step(
            LoadedView::Found(offered(f, id, records.take(i))),
            id,
            records[i],
        )).verdict is Created by {
            if i < records.len() - 1 {
                assert(records.take(i) =~= head.take(i));
                assert(records[i] == head[i]);
            } else {
                assert(records.take(i) =~= head);
            }
        }
    }
}

/// A sealed run is final: no start, output or finish writes to it, so its
/// end time, duration and exit status stay as the first finish left them,
/// whatever a later finish holds.
pub proof fn lemma_sealed_is_final(
    f: PostFileView,
    id: ReportIdView,
    script: Seq<char>,
    record: OutputRecordView,
    t: Timestamp,
    now: Timestamp,
    duration_millis: u64,
    exit_status: i32,
)
    requires
        f.sealed,
    ensures
        start_step(LoadedView::Found(f), id, script, t, now).write is None,
        output_step(LoadedView::Found(f), id, record).write is None,
        finish_step(LoadedView::Found(f), id, t, duration_millis, exit_status).write is None,
        f.report_uuid == id.uuid ==> finish_step(
            LoadedView::Found(f),
            id,
            t,
            duration_millis,
            exit_status,
        ).verdict is Existed,
{
}

/// Finishing a run in the ledger that is sealed already leaves the ledger
/// as it was.
pub proof fn lemma_finish_sealed<K>(
    ledger: Map<K, PostFileView>,
    k: K,
    id: ReportIdView,
    end_time: Timestamp,
    duration_millis: u64,
    exit_status: i32,
)
    requires
        ledger.dom().contains(k),
        ledger[k].sealed,
    ensures
        carried_out(
            ledger,
            k,
            finish_step(lookup(ledger, k), id, end_time, duration_millis, exit_status),
        ) == ledger,
{
}

/// Whether `after` is what `before` may become: the same run, with nothing
/// taken from its output, and sealed for good once it is sealed.
pub open spec fn grows_from(after: PostFileView, before: PostFileView) -> bool {
    &&& after.report_uuid == before.report_uuid
    &&& after.report_pid == before.report_pid
    &&& after.report_time == before.report_time
    &&& after.time_start == before.time_start
    &&& after.script == before.script
    &&& before.output.is_prefix_of(after.output)
    &&& before.sealed ==> after == before
}

/// Whatever is written over a record keeps what the record held: records
/// stay well formed, output is only added at the end, and the identifier
/// never changes.
pub proof fn lemma_records_only_grow(
    f: PostFileView,
    id: ReportIdView,
    script: Seq<char>,
    record: OutputRecordView,
    t: Timestamp,
    now: Timestamp,
    duration_millis: u64,
    exit_status: i32,
)
    ensures
        start_step(LoadedView::Found(f), id, script, t, now).write is None,
        start_step(LoadedView::Absent, id, script, t, now).write->0.wf(),
        output_step(LoadedView::Found(f), id, record).write matches Some(g) ==> grows_from(g, f)
            && (f.wf() ==> g.wf()),
        finish_step(LoadedView::Found(f), id, t, duration_millis, exit_status).write matches Some(
            g,
        ) ==> grows_from(g, f) && g.wf() && g.sealed,
{
    assert(f.output.is_prefix_of(f.output));
    assert(f.output.is_prefix_of(f.output.push(record)));
}

} // verus!
