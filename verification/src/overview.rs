//! What the overview of recent runs is, said once without the walk; and the
//! proof that the walk makes exactly that.

use vstd::prelude::*;
use crate::store::{FilePathView, PostFileView, ReportSummaryView, reports_dir};
use crate::summary::{
    apply, children, dir_parts, is_settled, line_of, query_of, run_path, settled, walk_start,
    AnswerView, NodeView, QueryView, WalkView, DAY, JOB, RUN, YEAR,
};
use crate::time::Timestamp;

verus! {

/// What is stored, as far as the overview reads it: the names that each
/// directory lists, the record that each file holds, and the time of
/// reading.
pub struct Disk {
    pub names: spec_fn(Seq<Seq<char>>, bool) -> Seq<Seq<char>>,
    pub records: spec_fn(FilePathView) -> Option<PostFileView>,
    pub now: Timestamp,
}

/// The true answer to a query.
pub open spec fn respond(disk: Disk, q: QueryView) -> AnswerView {
    match q {
        QueryView::List { dir, files } => AnswerView::Names((disk.names)(dir, files)),
        QueryView::Load { path } => AnswerView::Record {
            record: (disk.records)(path),
            now: disk.now,
        },
        QueryView::Done => AnswerView::Names(Seq::empty()),
    }
}

/// The places right below the directory `n`, in the order of the walk.
pub open spec fn kids(disk: Disk, root: Seq<char>, n: NodeView) -> Seq<NodeView> {
    children(n, (disk.names)(reports_dir(root, dir_parts(n)), n.level == DAY))
}

/// How far a place is above the files of the runs.
pub open spec fn height(n: NodeView) -> nat {
    if n.level >= RUN {
        0
    } else {
        (RUN - n.level) as nat
    }
}

/// The lines of all sealed runs at or below `n`, in the order of the walk:
/// within a job, latest first.
pub open spec fn entries(disk: Disk, root: Seq<char>, n: NodeView) -> Seq<ReportSummaryView>
    decreases height(n), kids(disk, root, n).len() + 1,
{
    if n.level >= RUN {
        match run_path(root, n) {
            Ok(path) => match line_of(n, (disk.records)(path), disk.now) {
                Some(line) => seq![line],
                None => Seq::empty(),
            },
            Err(_) => Seq::empty(),
        }
    } else {
        entries_from(disk, root, n, 0)
    }
}

/// The lines of all sealed runs at or below the places `i..` right below
/// `parent`.
pub open spec fn entries_from(disk: Disk, root: Seq<char>, parent: NodeView, i: int) -> Seq<
    ReportSummaryView,
>
    decreases height(parent), kids(disk, root, parent).len() - i,
{
    if parent.level >= RUN || i < 0 || i >= kids(disk, root, parent).len() {
        Seq::empty()
    } else {
        entries(disk, root, kids(disk, root, parent)[i]) + entries_from(disk, root, parent, i + 1)
    }
}

/// The first `budget` of `lines`, or all of them if they are fewer.
pub open spec fn first(lines: Seq<ReportSummaryView>, budget: nat) -> Seq<ReportSummaryView> {
    if lines.len() >= budget {
        lines.take(budget as int)
    } else {
        lines
    }
}

/// The overview of everything at or below a host, a job or the directory
/// of all reports: for each job, in the order of the walk, the first
/// `perjob` lines of its sealed runs.
pub open spec fn overview(disk: Disk, root: Seq<char>, perjob: nat, n: NodeView) -> Seq<
    ReportSummaryView,
>
    decreases height(n), kids(disk, root, n).len() + 1,
{
    if n.level >= JOB {
        first(entries(disk, root, n), perjob)
    } else {
        overview_from(disk, root, perjob, n, 0)
    }
}

/// The overview of everything at or below the places `i..` right below
/// `parent`.
pub open spec fn overview_from(
    disk: Disk,
    root: Seq<char>,
    perjob: nat,
    parent: NodeView,
    i: int,
) -> Seq<ReportSummaryView>
    decreases height(parent), kids(disk, root, parent).len() - i,
{
    if parent.level >= JOB || i < 0 || i >= kids(disk, root, parent).len() {
        Seq::empty()
    } else {
        overview(disk, root, perjob, kids(disk, root, parent)[i]) + overview_from(
            disk,
            root,
            perjob,
            parent,
            i + 1,
        )
    }
}

/// The overview of all that is stored.
pub open spec fn summary_spec(disk: Disk, root: Seq<char>, perjob: nat) -> Seq<ReportSummaryView> {
    overview(disk, root, perjob, walk_start(root, perjob).stack[0])
}

} // verus!

verus! {

/// How many more runs of the job at hand the walk may take.
pub open spec fn budget(w: WalkView) -> nat {
    if w.count >= w.perjob {
        0
    } else {
        (w.perjob - w.count) as nat
    }
}

/// The lines that the places still on the stack stand for, the place to be
/// looked at next first: what is left of the job at hand gives lines while
/// the budget lasts; everything else gives its overview.
pub open spec fn remaining(
    disk: Disk,
    root: Seq<char>,
    perjob: nat,
    stack: Seq<NodeView>,
    budget: nat,
) -> Seq<ReportSummaryView>
    decreases stack.len(),
{
    if stack.len() == 0 {
        Seq::empty()
    } else if stack.last().level >= YEAR {
        let e = entries(disk, root, stack.last());
        if e.len() >= budget {
            e.take(budget as int) + remaining(disk, root, perjob, stack.drop_last(), 0)
        } else {
            e + remaining(disk, root, perjob, stack.drop_last(), (budget - e.len()) as nat)
        }
    } else {
        overview(disk, root, perjob, stack.last()) + remaining(
            disk,
            root,
            perjob,
            stack.drop_last(),
            budget,
        )
    }
}

/// The lines that the walk is going to end with if it is answered truly
/// and does not fail: those it has made, and those still to come.
pub open spec fn promised(disk: Disk, w: WalkView) -> Seq<ReportSummaryView> {
    w.out + remaining(disk, w.root, w.perjob, w.stack, budget(w))
}

/// Whether the places on a stack lie as the walk puts them: none deeper
/// than one above it.
pub open spec fn layered(stack: Seq<NodeView>) -> bool {
    forall|i: int, j: int| 0 <= i <= j < stack.len() ==> stack[i].level <= stack[j].level
}

proof fn lemma_budget_is_idle(
    disk: Disk,
    root: Seq<char>,
    perjob: nat,
    stack: Seq<NodeView>,
    a: nat,
    b: nat,
)
    requires
        forall|i: int| 0 <= i < stack.len() ==> stack[i].level < YEAR,
    ensures
        remaining(disk, root, perjob, stack, a) == remaining(disk, root, perjob, stack, b),
    decreases stack.len(),
{
    if stack.len() > 0 {
        let rest = stack.drop_last();
        assert forall|i: int| 0 <= i < rest.len() implies rest[i].level < YEAR by {
            assert(rest[i] == stack[i]);
        }
        lemma_budget_is_idle(disk, root, perjob, rest, a, b);
    }
}

/// The stack `rest` with the places `k..` right below `parent` on top, the
/// place `k` topmost.
pub open spec fn with_kids(disk: Disk, root: Seq<char>, rest: Seq<NodeView>, parent: NodeView, k: int) -> Seq<
    NodeView,
> {
    rest + kids(disk, root, parent).subrange(k, kids(disk, root, parent).len() as int).reverse()
}

proof fn lemma_kid_levels(disk: Disk, root: Seq<char>, parent: NodeView, i: int)
    requires
        parent.level < RUN,
        0 <= i < kids(disk, root, parent).len(),
    ensures
        kids(disk, root, parent)[i].level == parent.level + 1,
{
}

proof fn lemma_remaining_kids(
    disk: Disk,
    root: Seq<char>,
    perjob: nat,
    rest: Seq<NodeView>,
    parent: NodeView,
    k: int,
    budget: nat,
)
    requires
        parent.level < RUN,
        0 <= k <= kids(disk, root, parent).len(),
    ensures
        parent.level >= JOB ==> remaining(
            disk,
            root,
            perjob,
            with_kids(disk, root, rest, parent, k),
            budget,
        ) == ({
            let e = entries_from(disk, root, parent, k);
            if e.len() >= budget {
                e.take(budget as int) + remaining(disk, root, perjob, rest, 0)
            } else {
                e + remaining(disk, root, perjob, rest, (budget - e.len()) as nat)
            }
        }),
        parent.level < JOB ==> remaining(
            disk,
            root,
            perjob,
            with_kids(disk, root, rest, parent, k),
            budget,
        ) == overview_from(disk, root, perjob, parent, k) + remaining(
            disk,
            root,
            perjob,
            rest,
            budget,
        ),
    decreases kids(disk, root, parent).len() - k,
{
    let all = kids(disk, root, parent);
    let stack = with_kids(disk, root, rest, parent, k);
    if k == all.len() {
        assert(stack =~= rest);
        if parent.level >= JOB {
            let e = entries_from(disk, root, parent, k);
            assert(e.take(0) =~= e);
            assert(e + remaining(disk, root, perjob, rest, budget) =~= remaining(
                disk,
                root,
                perjob,
                rest,
                budget,
            ));
            if budget == 0 {
                assert(e.take(budget as int) + remaining(disk, root, perjob, rest, 0)
                    =~= remaining(disk, root, perjob, rest, 0));
            }
        } else {
            assert(overview_from(disk, root, perjob, parent, k) + remaining(
                disk,
                root,
                perjob,
                rest,
                budget,
            ) =~= remaining(disk, root, perjob, rest, budget));
        }
    } else {
        let top = all[k];
        let below = with_kids(disk, root, rest, parent, k + 1);
        lemma_kid_levels(disk, root, parent, k);
        assert(stack.last() == top) by {
            let tail = all.subrange(k, all.len() as int).reverse();
            assert(tail[tail.len() - 1] == all[k]);
            assert(stack[stack.len() - 1] == tail[tail.len() - 1]);
        }
        assert(stack.drop_last() =~= below) by {
            let tail = all.subrange(k, all.len() as int).reverse();
            let tail2 = all.subrange(k + 1, all.len() as int).reverse();
            assert(tail.drop_last() =~= tail2);
        }
        if parent.level >= JOB {
            let e1 = entries(disk, root, top);
            let e2 = entries_from(disk, root, parent, k + 1);
            let e = entries_from(disk, root, parent, k);
            assert(e == e1 + e2);
            if e1.len() >= budget {
                lemma_remaining_kids(disk, root, perjob, rest, parent, k + 1, 0);
                assert(e2.take(0) + remaining(disk, root, perjob, rest, 0) =~= remaining(
                    disk,
                    root,
                    perjob,
                    rest,
                    0,
                ));
                assert(e.take(budget as int) =~= e1.take(budget as int));
            } else {
                let left = (budget - e1.len()) as nat;
                lemma_remaining_kids(disk, root, perjob, rest, parent, k + 1, left);
                if e2.len() >= left {
                    assert(e.take(budget as int) =~= e1 + e2.take(left as int));
                    assert(e1 + (e2.take(left as int) + remaining(disk, root, perjob, rest, 0))
                        =~= e.take(budget as int) + remaining(disk, root, perjob, rest, 0));
                } else {
                    assert(e1 + (e2 + remaining(
                        disk,
                        root,
                        perjob,
                        rest,
                        (left - e2.len()) as nat,
                    )) =~= e + remaining(disk, root, perjob, rest, (budget - e.len()) as nat));
                }
            }
        } else {
            lemma_remaining_kids(disk, root, perjob, rest, parent, k + 1, budget);
            let o1 = overview(disk, root, perjob, top);
            let o2 = overview_from(disk, root, perjob, parent, k + 1);
            assert(o1 + (o2 + remaining(disk, root, perjob, rest, budget)) =~= (o1 + o2)
                + remaining(disk, root, perjob, rest, budget));
        }
    }
}

} // verus!

verus! {

/// Passing over what needs no look takes nothing from what the walk is
/// going to end with, and leaves the stack layered.
pub proof fn lemma_settling_keeps_promise(disk: Disk, w: WalkView)
    requires
        settled(w).failed is None,
    ensures
        promised(disk, settled(w)) == promised(disk, w),
        layered(w.stack) ==> layered(settled(w).stack),
    decreases w.stack.len(),
{
    if w.failed is Some || w.stack.len() == 0 {
    } else if w.stack.last().level >= YEAR && w.count >= w.perjob {
        let popped = WalkView { stack: w.stack.drop_last(), ..w };
        lemma_settling_keeps_promise(disk, popped);
        let e = entries(disk, w.root, w.stack.last());
        assert(e.take(0) + remaining(disk, w.root, w.perjob, w.stack.drop_last(), 0)
            =~= remaining(disk, w.root, w.perjob, w.stack.drop_last(), 0));
        if layered(w.stack) {
            assert forall|i: int, j: int| 0 <= i <= j < popped.stack.len() implies popped.stack[i].level
                <= popped.stack[j].level by {
                assert(popped.stack[i] == w.stack[i] && popped.stack[j] == w.stack[j]);
            }
        }
    } else {
    }
}

/// One step of the walk, answered truly, takes nothing from what the walk
/// is going to end with and adds nothing to it: whatever lines the step
/// makes are the next of those that were still to come.
pub proof fn lemma_step_keeps_promise(disk: Disk, w: WalkView)
    requires
        is_settled(w),
        layered(w.stack),
        w.failed is None,
        apply(w, respond(disk, query_of(w))).failed is None,
    ensures
        promised(disk, apply(w, respond(disk, query_of(w)))) == promised(disk, w),
        layered(apply(w, respond(disk, query_of(w))).stack),
{
    let after = apply(w, respond(disk, query_of(w)));
    if w.stack.len() == 0 {
    } else {
        let top = w.stack.last();
        let rest = w.stack.drop_last();
        let b = budget(w);
        assert forall|i: int, j: int| 0 <= i <= j < rest.len() implies rest[i].level
            <= rest[j].level by {
            assert(rest[i] == w.stack[i] && rest[j] == w.stack[j]);
        }
        if top.level >= RUN {
            let path = run_path(w.root, top)->Ok_0;
            let line = line_of(top, (disk.records)(path), disk.now);
            let e = entries(disk, w.root, top);
            assert(b >= 1);
            match line {
                Some(l) => {
                    assert(e =~= seq![l]);
                    if b == 1 {
                        assert(e.take(1) =~= e);
                    }
                    assert(w.out.push(l) + remaining(disk, w.root, w.perjob, rest, budget(after))
                        =~= w.out + (e + remaining(
                        disk,
                        w.root,
                        w.perjob,
                        rest,
                        budget(after),
                    )));
                },
                None => {
                    assert(e =~= Seq::<ReportSummaryView>::empty());
                    assert(e + remaining(disk, w.root, w.perjob, rest, b) =~= remaining(
                        disk,
                        w.root,
                        w.perjob,
                        rest,
                        b,
                    ));
                },
            }
        } else {
            let all = kids(disk, w.root, top);
            assert(after.stack =~= with_kids(disk, w.root, rest, top, 0)) by {
                assert(all.subrange(0, all.len() as int) =~= all);
            }
            lemma_remaining_kids(disk, w.root, w.perjob, rest, top, 0, budget(after));
            if top.level == JOB {
                assert forall|i: int| 0 <= i < rest.len() implies rest[i].level < YEAR by {
                    assert(rest[i] == w.stack[i]);
                    assert(w.stack[i].level <= w.stack[w.stack.len() - 1].level);
                }
                let e = entries(disk, w.root, top);
                let left: nat = if e.len() >= w.perjob {
                    0
                } else {
                    (w.perjob - e.len()) as nat
                };
                lemma_budget_is_idle(disk, w.root, w.perjob, rest, left, b);
            }
            assert forall|i: int, j: int| 0 <= i <= j < after.stack.len() implies after.stack[i].level
                <= after.stack[j].level by {
                let tail = all.reverse();
                if j >= rest.len() {
                    assert(after.stack[j] == tail[j - rest.len()]);
                    lemma_kid_levels(disk, w.root, top, all.len() - 1 - (j - rest.len()));
                }
                if i >= rest.len() {
                    assert(after.stack[i] == tail[i - rest.len()]);
                    lemma_kid_levels(disk, w.root, top, all.len() - 1 - (i - rest.len()));
                } else {
                    assert(after.stack[i] == w.stack[i]);
                    assert(w.stack[i].level <= w.stack[w.stack.len() - 1].level);
                }
                if j < rest.len() {
                    assert(after.stack[j] == w.stack[j]);
                }
            }
        }
    }
}

/// At its start the walk is going to end with the overview of all that is
/// stored.
pub proof fn lemma_walk_begins(disk: Disk, root: Seq<char>, perjob: nat)
    ensures
        promised(disk, walk_start(root, perjob)) == summary_spec(disk, root, perjob),
        layered(walk_start(root, perjob).stack),
{
    let w = walk_start(root, perjob);
    assert(w.stack.drop_last() =~= Seq::<NodeView>::empty());
    assert(remaining(disk, root, perjob, w.stack.drop_last(), budget(w)) =~= Seq::<
        ReportSummaryView,
    >::empty());
    assert(w.stack.last() == w.stack[0]);
    assert(promised(disk, w) =~= summary_spec(disk, root, perjob));
}

/// A walk that has nothing left to look at has made all that it was going
/// to end with.
pub proof fn lemma_walk_ends(disk: Disk, w: WalkView)
    requires
        w.stack.len() == 0,
    ensures
        w.out == promised(disk, w),
{
    assert(w.out + Seq::<ReportSummaryView>::empty() =~= w.out);
}

/// Whether `line` is the line of a sealed record that is stored.
pub open spec fn is_sealed_line(disk: Disk, root: Seq<char>, line: ReportSummaryView) -> bool {
    exists|n: NodeView|
        {
            &&& run_path(root, n) is Ok
            &&& (disk.records)(run_path(root, n)->Ok_0) is Some
            &&& (disk.records)(run_path(root, n)->Ok_0)->0.sealed
            &&& #[trigger] line_of(n, (disk.records)(run_path(root, n)->Ok_0), disk.now) == Some(
                line,
            )
        }
}

/// Every line found below a place is the line of a sealed record: a run
/// that is not sealed gives no line, however late it is.
pub proof fn lemma_entries_are_sealed(disk: Disk, root: Seq<char>, n: NodeView, i: int)
    requires
        0 <= i < entries(disk, root, n).len(),
    ensures
        is_sealed_line(disk, root, entries(disk, root, n)[i]),
    decreases height(n), kids(disk, root, n).len() + 1,
{
    if n.level >= RUN {
        let path = run_path(root, n)->Ok_0;
        assert(line_of(n, (disk.records)(path), disk.now) == Some(entries(disk, root, n)[i]));
    } else {
        lemma_entries_from_are_sealed(disk, root, n, 0, i);
    }
}

proof fn lemma_entries_from_are_sealed(disk: Disk, root: Seq<char>, parent: NodeView, k: int, i: int)
    requires
        0 <= i < entries_from(disk, root, parent, k).len(),
    ensures
        is_sealed_line(disk, root, entries_from(disk, root, parent, k)[i]),
    decreases height(parent), kids(disk, root, parent).len() - k,
{
    let e1 = entries(disk, root, kids(disk, root, parent)[k]);
    lemma_kid_levels(disk, root, parent, k);
    if i < e1.len() {
        lemma_entries_are_sealed(disk, root, kids(disk, root, parent)[k], i);
    } else {
        lemma_entries_from_are_sealed(disk, root, parent, k + 1, i - e1.len());
    }
}

/// With one run per job, the overview of a job is its latest sealed run
/// and nothing else: the first line in the order of the walk, which within
/// a job goes from the latest run to the earliest, among the lines of
/// sealed records. A job without a sealed run gives no line.
pub proof fn lemma_one_per_job(disk: Disk, root: Seq<char>, job: NodeView)
    requires
        job.level == JOB,
    ensures
        ({
            let all = entries(disk, root, job);
            let got = overview(disk, root, 1, job);
            if all.len() == 0 {
                got.len() == 0
            } else {
                got == seq![all[0]] && is_sealed_line(disk, root, got[0])
            }
        }),
{
    let all = entries(disk, root, job);
    if all.len() > 0 {
        lemma_entries_are_sealed(disk, root, job, 0);
        assert(all.take(1) =~= seq![all[0]]);
    }
}

} // verus!

verus! {

/// The overview never holds more lines for a job than were asked for.
pub proof fn lemma_at_most_perjob(disk: Disk, root: Seq<char>, perjob: nat, job: NodeView)
    requires
        job.level == JOB,
    ensures
        overview(disk, root, perjob, job).len() <= perjob,
        overview(disk, root, perjob, job).is_prefix_of(entries(disk, root, job)),
{
    let all = entries(disk, root, job);
    if all.len() >= perjob {
        assert(all.take(perjob as int).is_prefix_of(all));
    } else {
        assert(all.is_prefix_of(all));
    }
}

/// The number that names a year, a month, a day or a run among its like.
pub open spec fn number_of(n: NodeView) -> int {
    if n.level == YEAR {
        n.year as int
    } else if n.level == crate::summary::MONTH {
        n.month as int
    } else if n.level == DAY {
        n.day as int
    } else {
        n.run as int
    }
}

/// The years of a job, the months of a year, the days of a month and the
/// runs of a day are walked from the latest to the earliest, each once.
pub proof fn lemma_latest_first(disk: Disk, root: Seq<char>, parent: NodeView, i: int, j: int)
    requires
        JOB <= parent.level <= DAY,
        0 <= i < j < kids(disk, root, parent).len(),
    ensures
        number_of(kids(disk, root, parent)[i]) > number_of(kids(disk, root, parent)[j]),
{
    let names = (disk.names)(reports_dir(root, dir_parts(parent)), parent.level == DAY);
    if parent.level == DAY {
        crate::listing::lemma_runs_of(names);
    } else {
        crate::listing::lemma_numbers_of(names);
        let numbers = crate::listing::numbers_of(names);
        assert(0 <= numbers[i] <= u32::MAX);
        assert(0 <= numbers[j] <= u32::MAX);
    }
}

/// How many looks a place and all below it take.
pub open spec fn looks(disk: Disk, root: Seq<char>, n: NodeView) -> nat
    decreases height(n), kids(disk, root, n).len() + 1,
{
    if n.level >= RUN {
        1
    } else {
        1 + looks_from(disk, root, n, 0)
    }
}

/// How many looks the places `i..` right below `parent` and all below them
/// take.
pub open spec fn looks_from(disk: Disk, root: Seq<char>, parent: NodeView, i: int) -> nat
    decreases height(parent), kids(disk, root, parent).len() - i,
{
    if parent.level >= RUN || i < 0 || i >= kids(disk, root, parent).len() {
        0
    } else {
        looks(disk, root, kids(disk, root, parent)[i]) + looks_from(disk, root, parent, i + 1)
    }
}

/// How many looks the places on a stack take at most.
pub open spec fn looks_left(disk: Disk, root: Seq<char>, stack: Seq<NodeView>) -> nat
    decreases stack.len(),
{
    if stack.len() == 0 {
        0
    } else {
        looks(disk, root, stack.last()) + looks_left(disk, root, stack.drop_last())
    }
}

proof fn lemma_looks_kids(disk: Disk, root: Seq<char>, rest: Seq<NodeView>, parent: NodeView, k: int)
    requires
        parent.level < RUN,
        0 <= k <= kids(disk, root, parent).len(),
    ensures
        looks_left(disk, root, with_kids(disk, root, rest, parent, k)) == looks_from(
            disk,
            root,
            parent,
            k,
        ) + looks_left(disk, root, rest),
    decreases kids(disk, root, parent).len() - k,
{
    let all = kids(disk, root, parent);
    let stack = with_kids(disk, root, rest, parent, k);
    if k == all.len() {
        assert(stack =~= rest);
    } else {
        let tail = all.subrange(k, all.len() as int).reverse();
        let tail2 = all.subrange(k + 1, all.len() as int).reverse();
        assert(tail[tail.len() - 1] == all[k]);
        assert(stack[stack.len() - 1] == tail[tail.len() - 1]);
        assert(tail.drop_last() =~= tail2);
        assert(stack.drop_last() =~= with_kids(disk, root, rest, parent, k + 1));
        lemma_looks_kids(disk, root, rest, parent, k + 1);
    }
}

/// The walk ends: passing over places never adds looks, and every step that
/// is answered truly leaves fewer looks to take than there were.
pub proof fn lemma_walk_makes_progress(disk: Disk, w: WalkView)
    requires
        is_settled(w),
        w.failed is None,
        w.stack.len() > 0,
        apply(w, respond(disk, query_of(w))).failed is None,
    ensures
        looks_left(disk, w.root, apply(w, respond(disk, query_of(w))).stack) < looks_left(
            disk,
            w.root,
            w.stack,
        ),
        looks_left(disk, w.root, settled(apply(w, respond(disk, query_of(w)))).stack)
            < looks_left(disk, w.root, w.stack),
{
    let after = apply(w, respond(disk, query_of(w)));
    let top = w.stack.last();
    let rest = w.stack.drop_last();
    if top.level < RUN {
        let all = kids(disk, w.root, top);
        assert(after.stack =~= with_kids(disk, w.root, rest, top, 0)) by {
            assert(all.subrange(0, all.len() as int) =~= all);
        }
        lemma_looks_kids(disk, w.root, rest, top, 0);
    }
    lemma_settling_sheds_looks(disk, after);
}

/// Passing over places never adds looks.
pub proof fn lemma_settling_sheds_looks(disk: Disk, w: WalkView)
    ensures
        looks_left(disk, w.root, settled(w).stack) <= looks_left(disk, w.root, w.stack),
    decreases w.stack.len(),
{
    if w.failed is Some || w.stack.len() == 0 {
    } else if w.stack.last().level >= YEAR && w.count >= w.perjob {
        lemma_settling_sheds_looks(disk, WalkView { stack: w.stack.drop_last(), ..w });
    } else {
    }
}

} // verus!
