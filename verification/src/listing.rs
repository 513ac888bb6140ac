//! Directory listings read as numbers: the years, months and days under a
//! job, and the runs of a day, newest first.

use vstd::prelude::*;
use crate::text::{
    chars_of, ends_with, has_suffix, parse_i64, parse_i64_spec, parse_u32, parse_u32_spec,
    string_of, texts,
};

verus! {

/// Whether `s` runs strictly downwards.
pub open spec fn strictly_descending(s: Seq<i64>) -> bool {
    forall|i: int, j: int| 0 <= i < j < s.len() ==> s[i] > s[j]
}

/// `s` with `x` put in its place, unless `s` holds `x` already.
pub open spec fn with_number(s: Seq<i64>, x: i64) -> Seq<i64>
    decreases s.len(),
{
    if s.len() == 0 {
        seq![x]
    } else if s[0] == x {
        s
    } else if s[0] < x {
        seq![x] + s
    } else {
        seq![s[0]] + with_number(s.drop_first(), x)
    }
}

/// Putting a number in its place keeps the order, adds that number and
/// nothing else.
pub proof fn lemma_with_number(s: Seq<i64>, x: i64)
    requires
        strictly_descending(s),
    ensures
        strictly_descending(with_number(s, x)),
        forall|y: i64| #[trigger] with_number(s, x).contains(y) <==> (y == x || s.contains(y)),
        with_number(s, x).contains(x),
        with_number(s, x).len() >= 1,
        s.len() > 0 ==> with_number(s, x)[0] >= s[0],
        with_number(s, x)[0] >= x,
    decreases s.len(),
{
    let r = with_number(s, x);
    if s.len() == 0 {
        assert forall|y: i64| r.contains(y) <==> (y == x || s.contains(y)) by {
            if r.contains(y) {
                let i = choose|i: int| 0 <= i < r.len() && r[i] == y;
            }
            if y == x {
                assert(r[0] == x);
            }
        }
    } else if s[0] == x {
        assert forall|y: i64| r.contains(y) <==> (y == x || s.contains(y)) by {
            if y == x {
                assert(s[0] == x);
            }
        }
    } else if s[0] < x {
        assert forall|i: int, j: int| 0 <= i < j < r.len() implies r[i] > r[j] by {
            if i == 0 {
                assert(r[j] == s[j - 1]);
                if j - 1 > 0 {
                    assert(s[0] > s[j - 1]);
                }
            } else {
                assert(r[i] == s[i - 1] && r[j] == s[j - 1]);
            }
        }
        assert forall|y: i64| r.contains(y) <==> (y == x || s.contains(y)) by {
            if r.contains(y) {
                let i = choose|i: int| 0 <= i < r.len() && r[i] == y;
                if i > 0 {
                    assert(s[i - 1] == y);
                }
            }
            if y == x {
                assert(r[0] == x);
            }
            if s.contains(y) {
                let i = choose|i: int| 0 <= i < s.len() && s[i] == y;
                assert(r[i + 1] == y);
            }
        }
    } else {
        let t = s.drop_first();
        assert(strictly_descending(t)) by {
            assert forall|i: int, j: int| 0 <= i < j < t.len() implies t[i] > t[j] by {
                assert(t[i] == s[i + 1] && t[j] == s[j + 1]);
            }
        }
        lemma_with_number(t, x);
        let u = with_number(t, x);
        assert forall|y: i64| r.contains(y) <==> (y == x || s.contains(y)) by {
            if r.contains(y) {
                let i = choose|i: int| 0 <= i < r.len() && r[i] == y;
                if i == 0 {
                    assert(s[0] == y);
                } else {
                    assert(u[i - 1] == y);
                    assert(u.contains(y));
                    assert(u.contains(y) <==> (y == x || t.contains(y)));
                    if t.contains(y) {
                        let k = choose|k: int| 0 <= k < t.len() && t[k] == y;
                        assert(s[k + 1] == y);
                    }
                }
            }
            if y == x || s.contains(y) {
                if s.contains(y) && y != x {
                    let k = choose|k: int| 0 <= k < s.len() && s[k] == y;
                    if k == 0 {
                        assert(r[0] == y);
                    } else {
                        assert(t[k - 1] == y);
                        assert(t.contains(y));
                        assert(u.contains(y) <==> (y == x || t.contains(y)));
                        let i = choose|i: int| 0 <= i < u.len() && u[i] == y;
                        assert(r[i + 1] == y);
                    }
                } else {
                    let i = choose|i: int| 0 <= i < u.len() && u[i] == x;
                    assert(r[i + 1] == x);
                }
            }
        }
        assert forall|i: int, j: int| 0 <= i < j < r.len() implies r[i] > r[j] by {
            if i == 0 {
                assert(r[j] == u[j - 1]);
                assert(u.contains(u[j - 1]));
                assert(u.contains(u[j - 1]) <==> (u[j - 1] == x || t.contains(u[j - 1])));
                if u[j - 1] != x {
                    assert(t.contains(u[j - 1]));
                    let k = choose|k: int| 0 <= k < t.len() && t[k] == u[j - 1];
                    assert(s[k + 1] == t[k]);
                }
            } else {
                assert(r[i] == u[i - 1] && r[j] == u[j - 1]);
            }
        }
    }
}

/// Puts `x` in its place in the descending list `v`, unless `v` holds it
/// already.
pub fn insert_number(v: &mut Vec<i64>, x: i64)
    ensures
        final(v)@ == with_number(old(v)@, x),
{
    let ghost before = v@;
    let mut i: usize = 0;
    assert(before.take(0) + with_number(before.skip(0), x) =~= with_number(before, x)) by {
        assert(before.skip(0) =~= before);
    }
    while i < v.len() && v[i] > x
        invariant
            i <= v.len(),
            v@ == before,
            with_number(before, x) == before.take(i as int) + with_number(
                before.skip(i as int),
                x,
            ),
        decreases v.len() - i,
    {
        proof {
            let rest = before.skip(i as int);
            assert(rest[0] == before[i as int]);
            assert(rest.drop_first() =~= before.skip(i + 1));
            assert(before.take(i + 1) =~= before.take(i as int) + seq![before[i as int]]);
            assert(before.take(i as int) + (seq![rest[0]] + with_number(rest.drop_first(), x))
                =~= before.take(i + 1) + with_number(before.skip(i + 1), x));
        }
        i += 1;
    }
    let ghost rest = before.skip(i as int);
    if i < v.len() && v[i] == x {
        proof {
            assert(rest[0] == x);
            assert(before.take(i as int) + rest =~= before);
        }
    } else {
        v.insert(i, x);
        proof {
            if rest.len() > 0 {
                assert(rest[0] == before[i as int]);
            }
            assert(with_number(rest, x) =~= seq![x] + rest);
            assert(v@ =~= before.take(i as int) + (seq![x] + rest));
        }
    }
}

} // verus!

verus! {

/// The numbers that the names of a listing of years, months or days stand
/// for, each once, largest first. Names that are no numbers are passed
/// over.
pub open spec fn numbers_of(names: Seq<Seq<char>>) -> Seq<i64>
    decreases names.len(),
{
    if names.len() == 0 {
        Seq::empty()
    } else {
        let before = numbers_of(names.drop_last());
        match parse_u32_spec(names.last()) {
            Some(n) => with_number(before, n as i64),
            None => before,
        }
    }
}

/// `s` without `suffix` at its end, however often it stands there.
pub open spec fn strip_all(s: Seq<char>, suffix: Seq<char>) -> Seq<char>
    decreases s.len(),
{
    if suffix.len() > 0 && has_suffix(s, suffix) {
        strip_all(s.take(s.len() - suffix.len()), suffix)
    } else {
        s
    }
}

/// The run that a file name stands for: the name must end in `.json`, and
/// what is left without that ending must be a number.
pub open spec fn run_number(name: Seq<char>) -> Option<i64> {
    if has_suffix(name, ".json"@) {
        parse_i64_spec(strip_all(name, ".json"@))
    } else {
        None
    }
}

/// The runs that the names of a listing of a day stand for, each once,
/// latest first. Names that stand for no run are passed over.
pub open spec fn runs_of(names: Seq<Seq<char>>) -> Seq<i64>
    decreases names.len(),
{
    if names.len() == 0 {
        Seq::empty()
    } else {
        let before = runs_of(names.drop_last());
        match run_number(names.last()) {
            Some(n) => with_number(before, n),
            None => before,
        }
    }
}

/// A listing read as numbers runs strictly downwards, and holds exactly
/// the numbers that its names stand for, all of which fit in 32 bits.
pub proof fn lemma_numbers_of(names: Seq<Seq<char>>)
    ensures
        strictly_descending(numbers_of(names)),
        forall|y: i64| #[trigger]
            numbers_of(names).contains(y) <==> exists|i: int|
                0 <= i < names.len() && parse_u32_spec(#[trigger] names[i]) == Some(y as u32) && 0
                    <= y <= u32::MAX,
        forall|k: int| 0 <= k < numbers_of(names).len() ==> 0 <= #[trigger] numbers_of(names)[k]
            <= u32::MAX,
    decreases names.len(),
{
    let r = numbers_of(names);
    if names.len() > 0 {
        let head = names.drop_last();
        lemma_numbers_of(head);
        let before = numbers_of(head);
        match parse_u32_spec(names.last()) {
            Some(n) => {
                lemma_with_number(before, n as i64);
            },
            None => {},
        }
        assert forall|y: i64| #[trigger]
            r.contains(y) <==> exists|i: int|
                0 <= i < names.len() && parse_u32_spec(#[trigger] names[i]) == Some(y as u32) && 0
                    <= y <= u32::MAX by {
            if r.contains(y) {
                if before.contains(y) {
                    let i = choose|i: int|
                        0 <= i < head.len() && parse_u32_spec(#[trigger] head[i]) == Some(y as u32)
                            && 0 <= y <= u32::MAX;
                    assert(names[i] == head[i]);
                } else {
                    assert(parse_u32_spec(names[names.len() - 1]) == Some(y as u32));
                }
            }
            if exists|i: int|
                0 <= i < names.len() && parse_u32_spec(#[trigger] names[i]) == Some(y as u32) && 0
                    <= y <= u32::MAX {
                let i = choose|i: int|
                    0 <= i < names.len() && parse_u32_spec(#[trigger] names[i]) == Some(y as u32)
                        && 0 <= y <= u32::MAX;
                if i < names.len() - 1 {
                    assert(head[i] == names[i]);
                    assert(before.contains(y));
                }
            }
        }
        assert forall|k: int| 0 <= k < r.len() implies 0 <= #[trigger] r[k] <= u32::MAX by {
            assert(r.contains(r[k]));
        }
    }
}

/// A listing read as runs goes strictly downwards, and holds exactly the
/// runs that its names stand for.
pub proof fn lemma_runs_of(names: Seq<Seq<char>>)
    ensures
        strictly_descending(runs_of(names)),
        forall|y: i64| #[trigger]
            runs_of(names).contains(y) <==> exists|i: int|
                0 <= i < names.len() && run_number(#[trigger] names[i]) == Some(y),
    decreases names.len(),
{
    let r = runs_of(names);
    if names.len() > 0 {
        let head = names.drop_last();
        lemma_runs_of(head);
        let before = runs_of(head);
        match run_number(names.last()) {
            Some(n) => {
                lemma_with_number(before, n);
            },
            None => {},
        }
        assert forall|y: i64| #[trigger]
            r.contains(y) <==> exists|i: int|
                0 <= i < names.len() && run_number(#[trigger] names[i]) == Some(y) by {
            if r.contains(y) {
                if before.contains(y) {
                    let i = choose|i: int|
                        0 <= i < head.len() && run_number(#[trigger] head[i]) == Some(y);
                    assert(names[i] == head[i]);
                } else {
                    assert(run_number(names[names.len() - 1]) == Some(y));
                }
            }
            if exists|i: int| 0 <= i < names.len() && run_number(#[trigger] names[i]) == Some(y) {
                let i = choose|i: int|
                    0 <= i < names.len() && run_number(#[trigger] names[i]) == Some(y);
                if i < names.len() - 1 {
                    assert(head[i] == names[i]);
                    assert(before.contains(y));
                }
            }
        }
    }
}

/// Reads the names of a listing of years, months or days as numbers,
/// largest first.
pub fn numbered(names: &Vec<String>) -> (r: Vec<i64>)
    ensures
        r@ == numbers_of(texts(names@)),
{
    let ghost all = texts(names@);
    let mut out: Vec<i64> = Vec::new();
    let mut i: usize = 0;
    while i < names.len()
        invariant
            i <= names.len(),
            all == texts(names@),
            out@ == numbers_of(all.take(i as int)),
        decreases names.len() - i,
    {
        proof {
            assert(all.take(i + 1).drop_last() =~= all.take(i as int));
            assert(all.take(i + 1).last() == names@[i as int]@);
        }
        match parse_u32(names[i].as_str()) {
            Some(n) => {
                insert_number(&mut out, n as i64);
            },
            None => {},
        }
        i += 1;
    }
    assert(all.take(names.len() as int) =~= all);
    out
}

/// Reads a file name as a run.
pub fn parse_run(name: &str) -> (r: Option<i64>)
    ensures
        r == run_number(name@),
{
    let v = chars_of(name);
    let suffix = chars_of(".json");
    proof {
        reveal_strlit(".json");
        assert(v@.take(v.len() as int) =~= v@);
    }
    if !ends_with(&v, v.len(), &suffix) {
        return None;
    }
    let mut end: usize = v.len();
    while ends_with(&v, end, &suffix)
        invariant
            end <= v.len(),
            suffix@ == ".json"@,
            suffix@.len() == 5,
            strip_all(v@, suffix@) == strip_all(v@.take(end as int), suffix@),
        decreases end,
    {
        proof {
            let s = v@.take(end as int);
            assert(s.take(s.len() - 5) =~= v@.take(end - 5));
        }
        end -= 5;
    }
    let stem = string_of(&v, 0, end);
    assert(v@.subrange(0, end as int) =~= v@.take(end as int));
    parse_i64(stem.as_str())
}

/// Reads the names of a listing of a day as runs, latest first.
pub fn report_numbers(names: &Vec<String>) -> (r: Vec<i64>)
    ensures
        r@ == runs_of(texts(names@)),
{
    let ghost all = texts(names@);
    let mut out: Vec<i64> = Vec::new();
    let mut i: usize = 0;
    while i < names.len()
        invariant
            i <= names.len(),
            all == texts(names@),
            out@ == runs_of(all.take(i as int)),
        decreases names.len() - i,
    {
        proof {
            assert(all.take(i + 1).drop_last() =~= all.take(i as int));
            assert(all.take(i + 1).last() == names@[i as int]@);
        }
        match parse_run(names[i].as_str()) {
            Some(n) => {
                insert_number(&mut out, n);
            },
            None => {},
        }
        i += 1;
    }
    assert(all.take(names.len() as int) =~= all);
    out
}

} // verus!
