//! Gauges in the text format that Prometheus reads.

use vstd::prelude::*;
use vstd::string::StringExecFns;
use crate::text::{decimal, decimal_text, str_eq};

verus! {

#[derive(Debug)]
struct EmitterStat {
    name: String,
    typ: String,
    desc: String,
}

/// What is known of a statistic: its name, its type and what it means.
pub struct StatView {
    pub name: Seq<char>,
    pub typ: Seq<char>,
    pub desc: Seq<char>,
}

impl View for EmitterStat {
    type V = StatView;

    closed spec fn view(&self) -> StatView {
        StatView { name: self.name@, typ: self.typ@, desc: self.desc@ }
    }
}

/// Writes statistics out, each under a header that is written once, before
/// the first value of the statistic.
#[derive(Debug)]
pub struct Emitter {
    typedefs: Vec<EmitterStat>,
    printed: Vec<String>,
    out: String,
}

/// What an `Emitter` holds: the statistics defined, by name; the names of
/// those whose header has been written; and the text written so far.
pub struct EmitterView {
    pub typedefs: Map<Seq<char>, StatView>,
    pub printed: Set<Seq<char>>,
    pub out: Seq<char>,
}

spec fn stats_of(defs: Seq<EmitterStat>) -> Map<Seq<char>, StatView>
    decreases defs.len(),
{
    if defs.len() == 0 {
        Map::empty()
    } else {
        stats_of(defs.drop_last()).insert(defs.last()@.name, defs.last()@)
    }
}

spec fn names_of(names: Seq<String>) -> Set<Seq<char>>
    decreases names.len(),
{
    if names.len() == 0 {
        Set::empty()
    } else {
        names_of(names.drop_last()).insert(names.last()@)
    }
}

impl View for Emitter {
    type V = EmitterView;

    closed spec fn view(&self) -> EmitterView {
        EmitterView {
            typedefs: stats_of(self.typedefs@),
            printed: names_of(self.printed@),
            out: self.out@,
        }
    }
}

/// The header of a statistic: a line with its type and a line with what it
/// means.
pub open spec fn header_text(stat: StatView) -> Seq<char> {
    "# TYPE "@ + stat.name + " "@ + stat.typ + "\n"@ + "# HELP "@ + stat.name + " "@ + stat.desc
        + "\n"@
}

/// One value of a statistic, for one job of one host.
pub open spec fn sample_text(name: Seq<char>, host: Seq<char>, job: Seq<char>, val: int) -> Seq<
    char,
> {
    name + "{host=\""@ + host + "\",name=\""@ + job + "\"}\t"@ + decimal_text(val) + "\n"@
}

/// The emitter once the header of `stat_name` is written, if it was not.
pub open spec fn with_header(e: EmitterView, stat_name: Seq<char>) -> EmitterView {
    if e.printed.contains(stat_name) {
        e
    } else {
        EmitterView {
            out: e.out + header_text(e.typedefs[stat_name]),
            printed: e.printed.insert(stat_name),
            ..e
        }
    }
}

/// The emitter once a value of `stat_name` is written.
pub open spec fn with_sample(
    e: EmitterView,
    stat_name: Seq<char>,
    host: Seq<char>,
    job: Seq<char>,
    val: int,
) -> EmitterView {
    let h = with_header(e, stat_name);
    EmitterView { out: h.out + sample_text(h.typedefs[stat_name].name, host, job, val), ..h }
}

impl Emitter {
    /// An emitter that knows no statistic and has written nothing.
    pub fn new() -> (e: Emitter)
        ensures
            e@.typedefs == Map::<Seq<char>, StatView>::empty(),
            e@.printed == Set::<Seq<char>>::empty(),
            e@.out == Seq::<char>::empty(),
    {
        Emitter { typedefs: Vec::new(), printed: Vec::new(), out: String::new() }
    }

    /// Defines the statistic `statname`, or defines it anew.
    pub fn define(&mut self, statname: &str, stattype: &str, statdesc: &str)
        ensures
            final(self)@.typedefs == old(self)@.typedefs.insert(
                statname@,
                StatView { name: statname@, typ: stattype@, desc: statdesc@ },
            ),
            final(self)@.printed == old(self)@.printed,
            final(self)@.out == old(self)@.out,
    {
        let stat = EmitterStat {
            name: statname.to_owned(),
            typ: stattype.to_owned(),
            desc: statdesc.to_owned(),
        };
        proof {
            assert(self.typedefs@.push(stat).drop_last() =~= self.typedefs@);
        }
        self.typedefs.push(stat);
    }

    /// Whether the statistic `stat_name` is defined.
    pub fn is_defined(&self, stat_name: &str) -> (r: bool)
        ensures
            r == self@.typedefs.dom().contains(stat_name@),
    {
        self.find(stat_name).is_some()
    }

    fn find(&self, stat_name: &str) -> (r: Option<usize>)
        ensures
            r is Some <==> self@.typedefs.dom().contains(stat_name@),
            r matches Some(i) ==> i < self.typedefs.len() && self.typedefs@[i as int]@
                == self@.typedefs[stat_name@] && self.typedefs@[i as int]@.name == stat_name@,
    {
        let mut found: Option<usize> = None;
        let mut i: usize = 0;
        while i < self.typedefs.len()
            invariant
                i <= self.typedefs.len(),
                found is Some <==> stats_of(self.typedefs@.take(i as int)).dom().contains(
                    stat_name@,
                ),
                found matches Some(k) ==> k < i && self.typedefs@[k as int]@ == stats_of(
                    self.typedefs@.take(i as int),
                )[stat_name@] && self.typedefs@[k as int]@.name == stat_name@,
            decreases self.typedefs.len() - i,
        {
            proof {
                let next = self.typedefs@.take(i + 1);
                assert(next.drop_last() =~= self.typedefs@.take(i as int));
                assert(next.last() == self.typedefs@[i as int]);
            }
            if str_eq(self.typedefs[i].name.as_str(), stat_name) {
                found = Some(i);
            }
            i += 1;
        }
        assert(self.typedefs@.take(self.typedefs.len() as int) =~= self.typedefs@);
        found
    }

    fn was_printed(&self, stat_name: &str) -> (r: bool)
        ensures
            r == self@.printed.contains(stat_name@),
    {
        let mut i: usize = 0;
        while i < self.printed.len()
            invariant
                i <= self.printed.len(),
                !names_of(self.printed@.take(i as int)).contains(stat_name@),
            decreases self.printed.len() - i,
        {
            proof {
                let next = self.printed@.take(i + 1);
                assert(next.drop_last() =~= self.printed@.take(i as int));
                assert(next.last() == self.printed@[i as int]);
            }
            if str_eq(self.printed[i].as_str(), stat_name) {
                proof {
                    lemma_names_grow(self.printed@, i + 1, stat_name@);
                }
                return true;
            }
            i += 1;
        }
        assert(self.printed@.take(self.printed.len() as int) =~= self.printed@);
        false
    }

    fn emit_header(&mut self, stat_name: &str)
        requires
            old(self)@.typedefs.dom().contains(stat_name@),
        ensures
            final(self)@ == with_header(old(self)@, stat_name@),
    {
        if self.was_printed(stat_name) {
            return ;
        }
        match self.find(stat_name) {
            Some(i) => {
                self.out.append("# TYPE ");
                self.out.append(self.typedefs[i].name.as_str());
                self.out.append(" ");
                self.out.append(self.typedefs[i].typ.as_str());
                self.out.append("\n");
                self.out.append("# HELP ");
                self.out.append(self.typedefs[i].name.as_str());
                self.out.append(" ");
                self.out.append(self.typedefs[i].desc.as_str());
                self.out.append("\n");
                let name = stat_name.to_owned();
                proof {
                    assert(self.printed@.push(name).drop_last() =~= self.printed@);
                }
                self.printed.push(name);
                proof {
                    let want = with_header(old(self)@, stat_name@);
                    assert(self@.out =~= want.out);
                    assert(self@.printed =~= want.printed);
                }
            },
            None => {},
        }
    }

    /// Writes one value of the statistic `stat_name`, for the job `job` of
    /// `host`, under the header of the statistic.
    pub fn emit_i64(&mut self, stat_name: &str, host: &str, job: &str, val: i64)
        requires
            old(self)@.typedefs.dom().contains(stat_name@),
        ensures
            final(self)@ == with_sample(old(self)@, stat_name@, host@, job@, val as int),
    {
        self.emit_header(stat_name);
        match self.find(stat_name) {
            Some(i) => {
                self.out.append(self.typedefs[i].name.as_str());
                self.out.append("{host=\"");
                self.out.append(host);
                self.out.append("\",name=\"");
                self.out.append(job);
                self.out.append("\"}\t");
                let number = decimal(val);
                self.out.append(number.as_str());
                self.out.append("\n");
                proof {
                    let want = with_sample(old(self)@, stat_name@, host@, job@, val as int);
                    assert(self@.out =~= want.out);
                }
            },
            None => {},
        }
    }

    /// Writes one value of the statistic `stat_name`, for the job `job` of
    /// `host`, under the header of the statistic.
    pub fn emit_i32(&mut self, stat_name: &str, host: &str, job: &str, val: i32)
        requires
            old(self)@.typedefs.dom().contains(stat_name@),
        ensures
            final(self)@ == with_sample(old(self)@, stat_name@, host@, job@, val as int),
    {
        self.emit_i64(stat_name, host, job, val as i64);
    }

    /// The text written so far.
    pub fn out(&self) -> (r: &str)
        ensures
            r@ == self@.out,
    {
        self.out.as_str()
    }
}

proof fn lemma_names_grow(names: Seq<String>, n: int, name: Seq<char>)
    requires
        0 <= n <= names.len(),
        names_of(names.take(n)).contains(name),
    ensures
        names_of(names).contains(name),
    decreases names.len() - n,
{
    if n == names.len() {
        assert(names.take(n) =~= names);
    } else {
        let next = names.take(n + 1);
        assert(next.drop_last() =~= names.take(n));
        lemma_names_grow(names, n + 1, name);
    }
}

} // verus!
