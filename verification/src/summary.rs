//! The overview of recent runs: for every job of every host, the latest
//! sealed runs, found by walking the stored reports newest first and
//! stopping at each job as soon as enough have been found.

use vstd::prelude::*;
use vstd::string::StringExecFns;
use crate::listing::{numbered, numbers_of, report_numbers, runs_of};
use crate::store::{
    age_seconds, age_seconds_spec, clamp, reportpath_spec, reports_dir, FilePath, FilePathView,
    PostFile, PostFileView, ReportStore, ReportSummary, ReportSummaryView, StoreError,
    StoreErrorView,
};
use crate::text::{padded_text, sort_names, sorted_texts, texts, zero_padded};
use crate::time::Timestamp;

verus! {

/// Depth of the directory of all reports.
pub const ROOT: u8 = 0;

/// Depth of the directory of a host.
pub const HOST: u8 = 1;

/// Depth of the directory of a job.
pub const JOB: u8 = 2;

/// Depth of the directory of a year.
pub const YEAR: u8 = 3;

/// Depth of the directory of a month.
pub const MONTH: u8 = 4;

/// Depth of the directory of a day.
pub const DAY: u8 = 5;

/// Depth of the file of a run.
pub const RUN: u8 = 6;

/// A place in the stored reports that is still to be looked at: a
/// directory, or the file of a run.
#[derive(Debug)]
pub struct Node {
    level: u8,
    host: String,
    job: String,
    year: u32,
    month: u32,
    day: u32,
    run: i64,
}

/// What a `Node` holds. Only the parts down to its depth matter.
pub struct NodeView {
    pub level: u8,
    pub host: Seq<char>,
    pub job: Seq<char>,
    pub year: u32,
    pub month: u32,
    pub day: u32,
    pub run: i64,
}

impl View for Node {
    type V = NodeView;

    closed spec fn view(&self) -> NodeView {
        NodeView {
            level: self.level,
            host: self.host@,
            job: self.job@,
            year: self.year,
            month: self.month,
            day: self.day,
            run: self.run,
        }
    }
}

/// What the places on a stack hold.
pub open spec fn nodes_view(v: Seq<Node>) -> Seq<NodeView> {
    Seq::new(v.len(), |i: int| v[i]@)
}

/// What a list of summaries holds.
pub open spec fn summaries_view(v: Seq<ReportSummary>) -> Seq<ReportSummaryView> {
    Seq::new(v.len(), |i: int| v[i]@)
}

/// The names below the directory of all reports that lead to a directory.
pub open spec fn dir_parts(n: NodeView) -> Seq<Seq<char>> {
    if n.level == ROOT {
        Seq::empty()
    } else if n.level == HOST {
        seq![n.host]
    } else if n.level == JOB {
        seq![n.host, n.job]
    } else if n.level == YEAR {
        seq![n.host, n.job, padded_text(n.year as nat, 4)]
    } else if n.level == MONTH {
        seq![n.host, n.job, padded_text(n.year as nat, 4), padded_text(n.month as nat, 2)]
    } else {
        seq![
            n.host,
            n.job,
            padded_text(n.year as nat, 4),
            padded_text(n.month as nat, 2),
            padded_text(n.day as nat, 2),
        ]
    }
}

/// The place below `parent` that the `i`-th entry of its listing names.
pub open spec fn child(parent: NodeView, names: Seq<Seq<char>>, i: int) -> NodeView {
    if parent.level == ROOT {
        NodeView { level: HOST, host: sorted_texts(names)[i], ..parent }
    } else if parent.level == HOST {
        NodeView { level: JOB, job: sorted_texts(names)[i], ..parent }
    } else if parent.level == JOB {
        NodeView { level: YEAR, year: numbers_of(names)[i] as u32, ..parent }
    } else if parent.level == YEAR {
        NodeView { level: MONTH, month: numbers_of(names)[i] as u32, ..parent }
    } else if parent.level == MONTH {
        NodeView { level: DAY, day: numbers_of(names)[i] as u32, ..parent }
    } else {
        NodeView { level: RUN, run: runs_of(names)[i], ..parent }
    }
}

/// How many places the listing of `parent` names.
pub open spec fn child_count(parent: NodeView, names: Seq<Seq<char>>) -> nat {
    if parent.level == ROOT || parent.level == HOST {
        sorted_texts(names).len()
    } else if parent.level == DAY {
        runs_of(names).len()
    } else {
        numbers_of(names).len()
    }
}

/// The places below `parent` that its listing names, in the order in
/// which they are looked at: hosts and jobs by name, years, months, days
/// and runs latest first.
pub open spec fn children(parent: NodeView, names: Seq<Seq<char>>) -> Seq<NodeView> {
    Seq::new(child_count(parent, names), |i: int| child(parent, names, i))
}

/// What the walk asks its surroundings for.
#[derive(Debug)]
pub enum Query {
    /// The names of the entries of a directory: of its files if `files`
    /// holds, of its directories if not.
    List { dir: Vec<String>, files: bool },
    /// The record kept in a file.
    Load { path: FilePath },
    /// Nothing: the walk is over.
    Done,
}

/// What a `Query` holds.
pub enum QueryView {
    List { dir: Seq<Seq<char>>, files: bool },
    Load { path: FilePathView },
    Done,
}

impl View for Query {
    type V = QueryView;

    open spec fn view(&self) -> QueryView {
        match self {
            Query::List { dir, files } => QueryView::List { dir: texts(dir@), files: *files },
            Query::Load { path } => QueryView::Load { path: path@ },
            Query::Done => QueryView::Done,
        }
    }
}

/// What the surroundings found.
#[derive(Debug)]
pub enum Answer {
    /// The names asked for.
    Names(Vec<String>),
    /// The record asked for, or none if the file is missing or cannot be
    /// read as a record; and the time at which it was read.
    Record { record: Option<PostFile>, now: Timestamp },
    /// The directory could not be listed; the text describes why.
    Failed(String),
}

/// What an `Answer` holds.
pub enum AnswerView {
    Names(Seq<Seq<char>>),
    Record { record: Option<PostFileView>, now: Timestamp },
    Failed(Seq<char>),
}

impl View for Answer {
    type V = AnswerView;

    open spec fn view(&self) -> AnswerView {
        match self {
            Answer::Names(names) => AnswerView::Names(texts(names@)),
            Answer::Record { record, now } => AnswerView::Record {
                record: match record {
                    Some(p) => Some(p@),
                    None => None,
                },
                now: *now,
            },
            Answer::Failed(e) => AnswerView::Failed(e@),
        }
    }
}

/// A walk through the stored reports that is under way.
#[derive(Debug)]
pub struct SummaryWalk {
    store: ReportStore,
    perjob: usize,
    stack: Vec<Node>,
    count: usize,
    out: Vec<ReportSummary>,
    failed: Option<StoreError>,
}

/// What a `SummaryWalk` holds: the places still to be looked at, the next
/// one last; how many runs of the job at hand have been taken; the lines
/// made so far; and the failure that ended the walk, if one did.
pub struct WalkView {
    pub root: Seq<char>,
    pub perjob: nat,
    pub stack: Seq<NodeView>,
    pub count: nat,
    pub out: Seq<ReportSummaryView>,
    pub failed: Option<StoreErrorView>,
}

impl View for SummaryWalk {
    type V = WalkView;

    closed spec fn view(&self) -> WalkView {
        WalkView {
            root: self.store.root(),
            perjob: self.perjob as nat,
            stack: nodes_view(self.stack@),
            count: self.count as nat,
            out: summaries_view(self.out@),
            failed: match self.failed {
                Some(e) => Some(e@),
                None => None,
            },
        }
    }
}

/// Where the record of the run at `n` is kept.
pub open spec fn run_path(root: Seq<char>, n: NodeView) -> Result<FilePathView, StoreErrorView> {
    reportpath_spec(root, n.host, n.job, Timestamp::of_millis(n.run as int))
}

/// The walk with the places that need no look taken off: once enough runs
/// of a job have been taken, what is left of its years, months, days and
/// runs is passed over. A run whose place cannot be named ends the walk.
pub open spec fn settled(w: WalkView) -> WalkView
    decreases w.stack.len(),
{
    if w.failed is Some || w.stack.len() == 0 {
        w
    } else if w.stack.last().level >= YEAR && w.count >= w.perjob {
        settled(WalkView { stack: w.stack.drop_last(), ..w })
    } else if w.stack.last().level >= RUN && run_path(w.root, w.stack.last()) is Err {
        WalkView { failed: Some(run_path(w.root, w.stack.last())->Err_0), ..w }
    } else {
        w
    }
}

/// What a settled walk asks for next.
pub open spec fn query_of(w: WalkView) -> QueryView {
    if w.failed is Some || w.stack.len() == 0 {
        QueryView::Done
    } else if w.stack.last().level >= RUN {
        match run_path(w.root, w.stack.last()) {
            Ok(path) => QueryView::Load { path: path },
            Err(_) => QueryView::Done,
        }
    } else {
        QueryView::List {
            dir: reports_dir(w.root, dir_parts(w.stack.last())),
            files: w.stack.last().level == DAY,
        }
    }
}

/// The line of the overview for the run at `n`, if its record is there and
/// sealed.
pub open spec fn line_of(n: NodeView, record: Option<PostFileView>, now: Timestamp) -> Option<
    ReportSummaryView,
> {
    match record {
        Some(p) => if p.sealed && p.status is Some && p.duration is Some && age_seconds_spec(
            Timestamp::of_millis(n.run as int),
            now,
        ) is Some {
            Some(
                ReportSummaryView {
                    host: n.host,
                    job: n.job,
                    when: Timestamp::of_millis(n.run as int),
                    status: p.status->0,
                    duration_seconds: clamp(p.duration->0 as int / 1000) as i32,
                    age_seconds: age_seconds_spec(Timestamp::of_millis(n.run as int), now)->0,
                },
            )
        } else {
            None
        },
        None => None,
    }
}

/// The text of the failure of a walk that was answered something it had
/// not asked for.
pub open spec fn unexpected_answer() -> StoreErrorView {
    StoreErrorView::Failed("unexpected answer"@)
}

/// A settled walk after the answer to what it asked for. A listing puts
/// the places it names on the stack, the first to be looked at last, and a
/// job starts with no run taken. A sealed record adds a line and counts as
/// taken; any other is passed over.
pub open spec fn apply(w: WalkView, answer: AnswerView) -> WalkView {
    if w.failed is Some || w.stack.len() == 0 {
        w
    } else {
        let top = w.stack.last();
        let rest = w.stack.drop_last();
        match answer {
            AnswerView::Failed(e) => WalkView { failed: Some(StoreErrorView::Failed(e)), ..w },
            AnswerView::Names(names) => if top.level >= RUN {
                WalkView { failed: Some(unexpected_answer()), ..w }
            } else {
                WalkView {
                    stack: rest + children(top, names).reverse(),
                    count: if top.level == JOB {
                        0
                    } else {
                        w.count
                    },
                    ..w
                }
            },
            AnswerView::Record { record, now } => if top.level < RUN {
                WalkView { failed: Some(unexpected_answer()), ..w }
            } else if record is Some && record->0.sealed && age_seconds_spec(
                Timestamp::of_millis(top.run as int),
                now,
            ) is None {
                WalkView { failed: Some(StoreErrorView::TimeOutOfRange), ..w }
            } else {
                match line_of(top, record, now) {
                    Some(line) => WalkView {
                        stack: rest,
                        out: w.out.push(line),
                        count: w.count + 1,
                        ..w
                    },
                    None => WalkView { stack: rest, ..w },
                }
            },
        }
    }
}

} // verus!

verus! {

impl Node {
    fn blank() -> (n: Node)
        ensures
            n@ == (NodeView {
                level: ROOT,
                host: Seq::empty(),
                job: Seq::empty(),
                year: 0,
                month: 0,
                day: 0,
                run: 0,
            }),
    {
        Node {
            level: ROOT,
            host: String::new(),
            job: String::new(),
            year: 0,
            month: 0,
            day: 0,
            run: 0,
        }
    }

    fn duplicate(&self) -> (n: Node)
        ensures
            n@ == self@,
    {
        Node {
            level: self.level,
            host: self.host.clone(),
            job: self.job.clone(),
            year: self.year,
            month: self.month,
            day: self.day,
            run: self.run,
        }
    }

    /// The names below the directory of all reports that lead here.
    fn parts(&self) -> (parts: Vec<String>)
        requires
            self@.level < RUN,
        ensures
            texts(parts@) == dir_parts(self@),
    {
        let mut parts: Vec<String> = Vec::new();
        if self.level >= HOST {
            parts.push(self.host.clone());
        }
        if self.level >= JOB {
            parts.push(self.job.clone());
        }
        if self.level >= YEAR {
            parts.push(zero_padded(self.year, 4));
        }
        if self.level >= MONTH {
            parts.push(zero_padded(self.month, 2));
        }
        if self.level >= DAY {
            parts.push(zero_padded(self.day, 2));
        }
        assert(texts(parts@) =~= dir_parts(self@));
        parts
    }

    /// The place below this one that `name` names.
    fn named(&self, name: &String) -> (n: Node)
        requires
            self@.level == ROOT || self@.level == HOST,
        ensures
            n@ == if self@.level == ROOT {
                NodeView { level: HOST, host: name@, ..self@ }
            } else {
                NodeView { level: JOB, job: name@, ..self@ }
            },
    {
        if self.level == ROOT {
            Node {
                level: HOST,
                host: name.clone(),
                job: self.job.clone(),
                year: self.year,
                month: self.month,
                day: self.day,
                run: self.run,
            }
        } else {
            Node {
                level: JOB,
                host: self.host.clone(),
                job: name.clone(),
                year: self.year,
                month: self.month,
                day: self.day,
                run: self.run,
            }
        }
    }

    /// The place below this one that `number` names.
    fn numbered(&self, number: i64) -> (n: Node)
        requires
            JOB <= self@.level <= DAY,
        ensures
            n@ == if self@.level == JOB {
                NodeView { level: YEAR, year: number as u32, ..self@ }
            } else if self@.level == YEAR {
                NodeView { level: MONTH, month: number as u32, ..self@ }
            } else if self@.level == MONTH {
                NodeView { level: DAY, day: number as u32, ..self@ }
            } else {
                NodeView { level: RUN, run: number, ..self@ }
            },
    {
        let mut n = self.duplicate();
        if self.level == JOB {
            n.level = YEAR;
            n.year = #[verifier::truncate] (number as u32);
        } else if self.level == YEAR {
            n.level = MONTH;
            n.month = #[verifier::truncate] (number as u32);
        } else if self.level == MONTH {
            n.level = DAY;
            n.day = #[verifier::truncate] (number as u32);
        } else {
            n.level = RUN;
            n.run = number;
        }
        n
    }
}

/// Puts the places that the listing of `top` names on the stack, the first
/// to be looked at last.
fn push_children(stack: &mut Vec<Node>, top: &Node, names: Vec<String>)
    requires
        top@.level < RUN,
    ensures
        nodes_view(final(stack)@) == nodes_view(old(stack)@) + children(
            top@,
            texts(names@),
        ).reverse(),
{
    let ghost before = nodes_view(stack@);
    let ghost kids = children(top@, texts(names@));
    let ghost rev = kids.reverse();
    if top.level == ROOT || top.level == HOST {
        let sorted = sort_names(&names);
        let mut i: usize = sorted.len();
        assert(rev.take(0) =~= Seq::<NodeView>::empty());
        assert(before + rev.take(0) =~= before);
        while i > 0
            invariant
                i <= sorted.len(),
                top@.level == ROOT || top@.level == HOST,
                texts(sorted@) == sorted_texts(texts(names@)),
                kids == children(top@, texts(names@)),
                rev == kids.reverse(),
                kids.len() == sorted.len(),
                nodes_view(stack@) == before + rev.take(sorted.len() - i),
            decreases i,
        {
            i -= 1;
            let node = top.named(&sorted[i]);
            proof {
                let k = sorted.len() - i - 1;
                assert(rev[k] == kids[i as int]);
                assert(texts(sorted@)[i as int] == sorted@[i as int]@);
                assert(node@ == rev[k]);
                assert(nodes_view(stack@.push(node)) =~= nodes_view(stack@).push(node@));
                assert(rev.take(k + 1) =~= rev.take(k).push(rev[k]));
                assert((before + rev.take(k)).push(rev[k]) =~= before + rev.take(k + 1));
            }
            stack.push(node);
        }
        assert(rev.take(sorted.len() as int) =~= rev);
    } else {
        let numbers = if top.level == DAY {
            report_numbers(&names)
        } else {
            numbered(&names)
        };
        let mut i: usize = numbers.len();
        assert(rev.take(0) =~= Seq::<NodeView>::empty());
        assert(before + rev.take(0) =~= before);
        while i > 0
            invariant
                i <= numbers.len(),
                JOB <= top@.level <= DAY,
                numbers@ == if top@.level == DAY {
                    runs_of(texts(names@))
                } else {
                    numbers_of(texts(names@))
                },
                kids == children(top@, texts(names@)),
                rev == kids.reverse(),
                kids.len() == numbers.len(),
                nodes_view(stack@) == before + rev.take(numbers.len() - i),
            decreases i,
        {
            i -= 1;
            let node = top.numbered(numbers[i]);
            proof {
                let k = numbers.len() - i - 1;
                assert(rev[k] == kids[i as int]);
                assert(node@ == rev[k]);
                assert(nodes_view(stack@.push(node)) =~= nodes_view(stack@).push(node@));
                assert(rev.take(k + 1) =~= rev.take(k).push(rev[k]));
                assert((before + rev.take(k)).push(rev[k]) =~= before + rev.take(k + 1));
            }
            stack.push(node);
        }
        assert(rev.take(numbers.len() as int) =~= rev);
    }
}

} // verus!

verus! {

/// The walk at its start: everything is still to be looked at.
pub open spec fn walk_start(root: Seq<char>, perjob: nat) -> WalkView {
    WalkView {
        root: root,
        perjob: perjob,
        stack: seq![
            NodeView {
                level: ROOT,
                host: Seq::empty(),
                job: Seq::empty(),
                year: 0,
                month: 0,
                day: 0,
                run: 0,
            },
        ],
        count: 0,
        out: Seq::empty(),
        failed: None,
    }
}

impl ReportStore {
    /// Begins the overview of the latest `perjob` sealed runs of every job.
    /// The walk says what it needs to read, one thing at a time, and is
    /// told what was found.
    pub fn summary(self, perjob: usize) -> (w: SummaryWalk)
        ensures
            w@ == walk_start(self.root(), perjob as nat),
    {
        let mut stack: Vec<Node> = Vec::new();
        stack.push(Node::blank());
        let w = SummaryWalk {
            store: self,
            perjob,
            stack,
            count: 0,
            out: Vec::new(),
            failed: None,
        };
        assert(w@.stack =~= walk_start(w.store.root(), perjob as nat).stack);
        assert(w@.out =~= Seq::<ReportSummaryView>::empty());
        w
    }
}

/// Whether nothing is left to pass over: the place to look at next, if
/// there is one, does need a look.
pub open spec fn is_settled(w: WalkView) -> bool {
    w.failed is Some || w.stack.len() == 0 || (!(w.stack.last().level >= YEAR && w.count
        >= w.perjob) && (w.stack.last().level >= RUN ==> run_path(w.root, w.stack.last()) is Ok))
}

/// Settling leaves nothing to pass over, and settles nothing twice.
pub proof fn lemma_settled(w: WalkView)
    ensures
        is_settled(settled(w)),
        settled(settled(w)) == settled(w),
        is_settled(w) ==> settled(w) == w,
    decreases w.stack.len(),
{
    if w.failed is Some || w.stack.len() == 0 {
    } else if w.stack.last().level >= YEAR && w.count >= w.perjob {
        lemma_settled(WalkView { stack: w.stack.drop_last(), ..w });
    } else {
    }
}

impl SummaryWalk {
    fn settle(self) -> (r: SummaryWalk)
        ensures
            r@ == settled(self@),
            is_settled(r@),
    {
        let mut w = self;
        let ghost start = w@;
        proof {
            lemma_settled(start);
        }
        loop
            invariant
                settled(w@) == settled(start),
            ensures
                w@ == settled(start),
            decreases w.stack.len(),
        {
            if w.failed.is_some() || w.stack.len() == 0 {
                break ;
            }
            let n = w.stack.len();
            let level = w.stack[n - 1].level;
            if level >= YEAR && w.count >= w.perjob {
                proof {
                    assert(nodes_view(w.stack@.drop_last()) =~= nodes_view(w.stack@).drop_last());
                }
                w.stack.pop();
            } else if level >= RUN {
                let time = Timestamp::from_millis(w.stack[n - 1].run);
                let found = w.store.reportpath(
                    w.stack[n - 1].host.as_str(),
                    w.stack[n - 1].job.as_str(),
                    &time,
                );
                match found {
                    Err(e) => {
                        w.failed = Some(e);
                        break ;
                    },
                    Ok(_) => {
                        break ;
                    },
                }
            } else {
                break ;
            }
        }
        w
    }

    /// Passes over what needs no look, and says what to read next. Asking
    /// again before answering gives the same.
    pub fn next(self) -> (r: (SummaryWalk, Query))
        ensures
            r.0@ == settled(self@),
            r.1@ == query_of(r.0@),
    {
        let w = self.settle();
        if w.failed.is_some() || w.stack.len() == 0 {
            return (w, Query::Done);
        }
        let n = w.stack.len();
        if w.stack[n - 1].level >= RUN {
            let time = Timestamp::from_millis(w.stack[n - 1].run);
            let found = w.store.reportpath(
                w.stack[n - 1].host.as_str(),
                w.stack[n - 1].job.as_str(),
                &time,
            );
            match found {
                Ok(path) => (w, Query::Load { path }),
                Err(_) => (w, Query::Done),
            }
        } else {
            let parts = w.stack[n - 1].parts();
            let dir = w.store.reports_path(parts);
            let files = w.stack[n - 1].level == DAY;
            (w, Query::List { dir, files })
        }
    }

    /// Whether the walk is over.
    pub fn is_done(&self) -> (r: bool)
        ensures
            r == (self@.failed is Some || self@.stack.len() == 0),
    {
        self.failed.is_some() || self.stack.len() == 0
    }

    /// Takes the answer to what `next` asked for.
    pub fn answer(self, answer: Answer) -> (r: SummaryWalk)
        requires
            answer matches Answer::Record { record: Some(p), .. } ==> (p.sealed ==> p.status is Some
                && p.duration is Some),
        ensures
            r@ == apply(settled(self@), answer@),
    {
        let mut w = self.settle();
        if w.failed.is_some() || w.stack.len() == 0 {
            return w;
        }
        let n = w.stack.len();
        let top = w.stack[n - 1].duplicate();
        proof {
            assert(nodes_view(w.stack@.drop_last()) =~= nodes_view(w.stack@).drop_last());
        }
        match answer {
            Answer::Failed(e) => {
                w.failed = Some(StoreError::Failed(e));
                w
            },
            Answer::Names(names) => {
                if top.level >= RUN {
                    w.failed = Some(StoreError::Failed(String::from_str("unexpected answer")));
                    w
                } else {
                    w.stack.pop();
                    push_children(&mut w.stack, &top, names);
                    if top.level == JOB {
                        w.count = 0;
                    }
                    w
                }
            },
            Answer::Record { record, now } => {
                if top.level < RUN {
                    w.failed = Some(StoreError::Failed(String::from_str("unexpected answer")));
                    return w;
                }
                let when = Timestamp::from_millis(top.run);
                match record {
                    Some(p) => {
                        if p.sealed {
                            match (age_seconds(&when, &now), p.status) {
                                (Some(age), Some(status)) => {
                                    let line = ReportSummary {
                                        host: top.host,
                                        job: top.job,
                                        age_seconds: age,
                                        duration_seconds: p.duration_seconds(),
                                        when,
                                        status,
                                    };
                                    proof {
                                        assert(summaries_view(w.out@.push(line)) =~= summaries_view(
                                            w.out@,
                                        ).push(line@));
                                    }
                                    w.stack.pop();
                                    w.out.push(line);
                                    w.count = w.count + 1;
                                    w
                                },
                                _ => {
                                    w.failed = Some(StoreError::TimeOutOfRange);
                                    w
                                },
                            }
                        } else {
                            w.stack.pop();
                            w
                        }
                    },
                    None => {
                        w.stack.pop();
                        w
                    },
                }
            },
        }
    }

    /// Ends the walk: the lines of the overview, or the failure that ended
    /// the walk early.
    pub fn finish(self) -> (r: Result<Vec<ReportSummary>, StoreError>)
        ensures
            match self@.failed {
                Some(e) => r is Err && r->Err_0@ == e,
                None => r is Ok && summaries_view(r->Ok_0@) == self@.out,
            },
    {
        match self.failed {
            Some(e) => Err(e),
            None => Ok(self.out),
        }
    }
}

} // verus!
