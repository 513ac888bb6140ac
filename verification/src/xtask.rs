//! How a command that was run ended, in words.

use vstd::prelude::*;
use vstd::string::StringExecFns;
use crate::text::{
    chars_of, decimal, decimal_text, decode_lossy, ends_with, find_char, lemma_text_le_total,
    lemma_texts_push, lines_of, lossy_text, position, split_lines, string_of, text_le, text_no_later, texts, trim, trimmed,
};

verus! {

/// What a finished command left behind.
#[derive(Debug)]
pub struct CommandOutput {
    pub code: Option<i32>,
    pub stdout: Vec<u8>,
    pub stderr: Vec<u8>,
}

/// Describes how something ended.
pub trait OutputExt {
    /// The description.
    fn info(&self) -> String;
}

/// What a command has to say for itself: what it wrote to standard error,
/// or, if that is nothing, what it wrote to standard output.
pub open spec fn remarks(o: CommandOutput) -> Seq<char> {
    if trimmed(lossy_text(o.stderr@)).len() == 0 {
        trimmed(lossy_text(o.stdout@))
    } else {
        trimmed(lossy_text(o.stderr@))
    }
}

/// The description of how a command ended: its exit code, if it left one,
/// and what it has to say for itself, if anything.
pub open spec fn info_spec(o: CommandOutput) -> Seq<char> {
    let code = match o.code {
        Some(c) => "exit code "@ + decimal_text(c as int),
        None => Seq::empty(),
    };
    if remarks(o).len() == 0 {
        code
    } else if code.len() == 0 {
        remarks(o)
    } else {
        code + ": "@ + remarks(o)
    }
}

impl CommandOutput {
    /// The description of how the command ended.
    pub fn describe(&self) -> (out: String)
        ensures
            out@ == info_spec(*self),
    {
        let mut out = String::new();
        match self.code {
            Some(code) => {
                out.append("exit code ");
                let number = decimal(code as i64);
                out.append(number.as_str());
                assert(out@ =~= "exit code "@ + decimal_text(code as int));
            },
            None => {},
        }
        let stderr = trim(decode_lossy(&self.stderr).as_str());
        let extra = if stderr.as_str().unicode_len() == 0 {
            trim(decode_lossy(&self.stdout).as_str())
        } else {
            stderr
        };
        if extra.as_str().unicode_len() != 0 {
            if out.as_str().unicode_len() != 0 {
                out.append(": ");
            }
            out.append(extra.as_str());
        }
        assert(out@ =~= info_spec(*self));
        out
    }
}

impl OutputExt for CommandOutput {
    fn info(&self) -> (out: String)
        ensures
            out@ == info_spec(*self),
    {
        self.describe()
    }
}

} // verus!

verus! {

/// A crate of the workspace: the parts of its name, which dashes separate,
/// and where it lies.
#[derive(Debug)]
pub struct CrateEntry {
    pub name: Vec<String>,
    pub path: String,
}

/// What a `CrateEntry` holds.
pub struct CrateEntryView {
    pub name: Seq<Seq<char>>,
    pub path: Seq<char>,
}

impl View for CrateEntry {
    type V = CrateEntryView;

    open spec fn view(&self) -> CrateEntryView {
        CrateEntryView { name: texts(self.name@), path: self.path@ }
    }
}

impl CrateEntry {
    /// A copy of this entry.
    pub fn duplicate(&self) -> (e: CrateEntry)
        ensures
            e@ == self@,
    {
        let mut name: Vec<String> = Vec::new();
        let mut i: usize = 0;
        while i < self.name.len()
            invariant
                i <= self.name.len(),
                texts(name@) == texts(self.name@).take(i as int),
            decreases self.name.len() - i,
        {
            proof {
                lemma_texts_push(name@, self.name@[i as int]);
                assert(texts(self.name@).take(i as int).push(self.name@[i as int]@) =~= texts(
                    self.name@,
                ).take(i + 1));
            }
            name.push(self.name[i].clone());
            i += 1;
        }
        assert(texts(self.name@).take(self.name.len() as int) =~= texts(self.name@));
        CrateEntry { name, path: self.path.clone() }
    }
}

/// What a list of entries holds.
pub open spec fn entries_view(v: Seq<CrateEntry>) -> Seq<CrateEntryView> {
    Seq::new(v.len(), |i: int| v[i]@)
}

/// The pieces of `s` from `start` on that `c` separates, where the text up
/// to `at` holds no `c` after `start`.
pub open spec fn pieces(s: Seq<char>, start: int, at: int, c: char) -> Seq<Seq<char>>
    decreases s.len() - at,
{
    if at >= s.len() {
        seq![s.subrange(start, s.len() as int)]
    } else if s[at] == c {
        seq![s.subrange(start, at)] + pieces(s, at + 1, at + 1, c)
    } else {
        pieces(s, start, at + 1, c)
    }
}

/// The crate that a line of the listing of the workspace names: the name,
/// a space, the version, a space, and the path in round brackets.
pub open spec fn parse_line_spec(l: Seq<char>) -> Option<CrateEntryView> {
    let a = position(l, 0, ' ');
    let b = position(l, a + 1, ' ');
    if a < l.len() && b < l.len() && l.len() >= b + 3 && l[b + 1] == '(' && l[l.len() - 1] == ')' {
        Some(
            CrateEntryView {
                name: pieces(l.take(a), 0, 0, '-'),
                path: l.subrange(b + 2, l.len() - 1),
            },
        )
    } else {
        None
    }
}

/// The pieces of the characters `v[..end]` that dashes separate.
fn split_dashes(v: &Vec<char>, end: usize) -> (parts: Vec<String>)
    requires
        end <= v.len(),
    ensures
        texts(parts@) == pieces(v@.take(end as int), 0, 0, '-'),
{
    let ghost s = v@.take(end as int);
    let mut parts: Vec<String> = Vec::new();
    let mut start: usize = 0;
    let mut at: usize = 0;
    assert(texts(parts@) + pieces(s, 0, 0, '-') =~= pieces(s, 0, 0, '-'));
    while at < end
        invariant
            start <= at <= end <= v.len(),
            s == v@.take(end as int),
            pieces(s, 0, 0, '-') == texts(parts@) + pieces(s, start as int, at as int, '-'),
        decreases end - at,
    {
        if v[at] == '-' {
            let part = string_of(v, start, at);
            proof {
                assert(s[at as int] == '-');
                assert(s.subrange(start as int, at as int) =~= v@.subrange(start as int, at as int));
                lemma_texts_push(parts@, part);
                assert(texts(parts@) + (seq![part@] + pieces(s, at + 1, at + 1, '-'))
                    =~= texts(parts@).push(part@) + pieces(s, at + 1, at + 1, '-'));
            }
            parts.push(part);
            start = at + 1;
        }
        at += 1;
    }
    let last = string_of(v, start, end);
    proof {
        assert(s.subrange(start as int, s.len() as int) =~= v@.subrange(start as int, end as int));
        lemma_texts_push(parts@, last);
        assert(texts(parts@) + seq![last@] =~= texts(parts@).push(last@));
    }
    parts.push(last);
    parts
}

/// Reads a line of the listing of the workspace.
pub fn parse_line(line: &str) -> (r: Option<CrateEntry>)
    ensures
        match parse_line_spec(line@) {
            Some(e) => r is Some && r->0@ == e,
            None => r is None,
        },
{
    let v = chars_of(line);
    let n = v.len();
    let a = find_char(&v, 0, ' ');
    if a >= n {
        return None;
    }
    let b = find_char(&v, a + 1, ' ');
    if b >= n || n - b < 3 {
        return None;
    }
    if v[b + 1] != '(' || v[n - 1] != ')' {
        return None;
    }
    let name = split_dashes(&v, a);
    let path = string_of(&v, b + 2, n - 1);
    Some(CrateEntry { name, path })
}

/// What a line of the listing of the workspace is.
#[derive(Debug)]
pub enum TreeLine {
    /// Nothing but white space.
    Blank,
    /// A crate.
    Entry(CrateEntry),
    /// Something else.
    Weird,
}

/// Reads a line of the listing of the workspace and says what it is.
pub fn classify(line: &str) -> (r: TreeLine)
    ensures
        if trimmed(line@).len() == 0 {
            r is Blank
        } else {
            match parse_line_spec(line@) {
                Some(e) => r is Entry && r->Entry_0@ == e,
                None => r is Weird,
            }
        },
{
    if trim(line).as_str().unicode_len() == 0 {
        return TreeLine::Blank;
    }
    match parse_line(line) {
        Some(e) => TreeLine::Entry(e),
        None => TreeLine::Weird,
    }
}

/// Whether a crate belongs to this project: the first part of its name
/// begins with `keeper`.
pub open spec fn is_own(e: CrateEntryView) -> bool {
    e.name.len() > 0 && e.name[0].len() >= 6 && e.name[0].take(6) == "keeper"@
}

/// Whether the names `x` and `y`, which have as many parts, come in this
/// order from part `i` on: the first part that differs decides.
pub open spec fn parts_le(x: Seq<Seq<char>>, y: Seq<Seq<char>>, i: int) -> bool
    decreases x.len() - i,
{
    if i < 0 || i >= x.len() || i >= y.len() {
        true
    } else if x[i] == y[i] {
        parts_le(x, y, i + 1)
    } else {
        text_le(x[i], y[i])
    }
}

/// Whether `a` comes no later than `b` in the list of crates: the crates of
/// this project come first, then those with fewer parts to their name, then
/// by name, part by part.
pub open spec fn crate_le(a: CrateEntryView, b: CrateEntryView) -> bool {
    if is_own(a) != is_own(b) {
        is_own(a)
    } else if a.name.len() != b.name.len() {
        a.name.len() < b.name.len()
    } else {
        parts_le(a.name, b.name, 0)
    }
}

/// Of two crates, one comes no later than the other.
pub proof fn lemma_crate_le_total(a: CrateEntryView, b: CrateEntryView)
    ensures
        crate_le(a, b) || crate_le(b, a),
{
    if is_own(a) == is_own(b) && a.name.len() == b.name.len() {
        lemma_parts_le_total(a.name, b.name, 0);
    }
}

proof fn lemma_parts_le_total(x: Seq<Seq<char>>, y: Seq<Seq<char>>, i: int)
    requires
        x.len() == y.len(),
    ensures
        parts_le(x, y, i) || parts_le(y, x, i),
    decreases x.len() - i,
{
    if 0 <= i < x.len() {
        if x[i] == y[i] {
            lemma_parts_le_total(x, y, i + 1);
        } else {
            lemma_text_le_total(x[i], y[i]);
        }
    }
}

impl CrateEntry {
    /// Whether this crate belongs to this project.
    pub fn own(&self) -> (r: bool)
        ensures
            r == is_own(self@),
    {
        if self.name.len() == 0 {
            return false;
        }
        assert(texts(self.name@)[0] == self.name@[0]@);
        let first = chars_of(self.name[0].as_str());
        let word = chars_of("keeper");
        proof {
            reveal_strlit("keeper");
        }
        if first.len() < 6 {
            return false;
        }
        let r = ends_with(&first, 6, &word);
        proof {
            let head = first@.take(6);
            assert(head.subrange(0, 6) =~= head);
        }
        r
    }

    /// Whether this crate comes no later than `other` in the list of
    /// crates.
    pub fn no_later(&self, other: &CrateEntry) -> (r: bool)
        ensures
            r == crate_le(self@, other@),
    {
        let mine = self.own();
        let theirs = other.own();
        if mine != theirs {
            return mine;
        }
        if self.name.len() != other.name.len() {
            return self.name.len() < other.name.len();
        }
        let ghost x = texts(self.name@);
        let ghost y = texts(other.name@);
        let mut i: usize = 0;
        while i < self.name.len()
            invariant
                i <= self.name.len(),
                self.name.len() == other.name.len(),
                is_own(self@) == is_own(other@),
                x == texts(self.name@),
                y == texts(other.name@),
                parts_le(x, y, 0) == parts_le(x, y, i as int),
            decreases self.name.len() - i,
        {
            assert(x[i as int] == self.name@[i as int]@ && y[i as int] == other.name@[i as int]@);
            if self.name[i] != other.name[i] {
                assert(x[i as int] != y[i as int]);
                assert(parts_le(x, y, i as int) == text_le(x[i as int], y[i as int]));
                return text_no_later(self.name[i].as_str(), other.name[i].as_str());
            }
            i += 1;
        }
        true
    }
}

/// Whether each entry comes no later than the one after it.
pub open spec fn in_order(s: Seq<CrateEntryView>) -> bool {
    forall|i: int| 0 <= i < s.len() - 1 ==> crate_le(#[trigger] s[i], s[i + 1])
}

/// Puts the crates in the order of the list: the same crates, each as
/// often as before, none later than the one after it. Crates that the order
/// does not tell apart stay as they came.
pub fn sort_crates(crates: &Vec<CrateEntry>) -> (sorted: Vec<CrateEntry>)
    ensures
        entries_view(sorted@).to_multiset() == entries_view(crates@).to_multiset(),
        in_order(entries_view(sorted@)),
{
    let ghost all = entries_view(crates@);
    let mut out: Vec<CrateEntry> = Vec::new();
    let mut k: usize = 0;
    assert(entries_view(out@) =~= all.take(0));
    while k < crates.len()
        invariant
            k <= crates.len(),
            all == entries_view(crates@),
            entries_view(out@).to_multiset() == all.take(k as int).to_multiset(),
            in_order(entries_view(out@)),
        decreases crates.len() - k,
    {
        let e = crates[k].duplicate();
        let ghost before = entries_view(out@);
        let mut i: usize = out.len();
        while i > 0 && !out[i - 1].no_later(&e)
            invariant
                i <= out.len(),
                before == entries_view(out@),
                i < out.len() ==> !crate_le(before[i as int], e@),
            decreases i,
        {
            i -= 1;
        }
        proof {
            let after = before.insert(i as int, e@);
            assert(entries_view(out@.insert(i as int, e)) =~= after);
            vstd::seq_lib::to_multiset_insert(before, i as int, e@);
            vstd::seq_lib::to_multiset_build(all.take(k as int), all[k as int]);
            assert(all.take(k + 1) =~= all.take(k as int).push(all[k as int]));
            assert forall|j: int| 0 <= j < after.len() - 1 implies crate_le(
                #[trigger] after[j],
                after[j + 1],
            ) by {
                if j + 1 < i {
                    assert(after[j] == before[j] && after[j + 1] == before[j + 1]);
                } else if j + 1 == i {
                    assert(after[j] == before[j]);
                } else if j == i {
                    assert(after[j + 1] == before[j]);
                    lemma_crate_le_total(before[j], e@);
                } else {
                    assert(after[j] == before[j - 1] && after[j + 1] == before[j]);
                }
            }
        }
        out.insert(i, e);
        k += 1;
    }
    assert(all.take(crates.len() as int) =~= all);
    out
}

} // verus!

verus! {

/// What the listing of the workspace holds: the crates it names, in its
/// order, and the lines that could not be read.
#[derive(Debug)]
pub struct Tree {
    pub crates: Vec<CrateEntry>,
    pub weird: Vec<String>,
}

/// Whether a line of the listing is neither blank nor a crate.
pub open spec fn is_weird(l: Seq<char>) -> bool {
    trimmed(l).len() != 0 && parse_line_spec(l) is None
}

/// The crates that the lines name, in order.
pub open spec fn crates_of(lines: Seq<Seq<char>>) -> Seq<CrateEntryView>
    decreases lines.len(),
{
    if lines.len() == 0 {
        Seq::empty()
    } else if trimmed(lines.last()).len() != 0 && parse_line_spec(lines.last()) is Some {
        crates_of(lines.drop_last()).push(parse_line_spec(lines.last())->0)
    } else {
        crates_of(lines.drop_last())
    }
}

/// The lines that are neither blank nor a crate, in order.
pub open spec fn weird_of(lines: Seq<Seq<char>>) -> Seq<Seq<char>>
    decreases lines.len(),
{
    if lines.len() == 0 {
        Seq::empty()
    } else if is_weird(lines.last()) {
        weird_of(lines.drop_last()).push(lines.last())
    } else {
        weird_of(lines.drop_last())
    }
}

/// Reads the listing of the workspace, line by line.
pub fn read_tree(output: &str) -> (tree: Tree)
    ensures
        entries_view(tree.crates@) == crates_of(lines_of(output@)),
        texts(tree.weird@) == weird_of(lines_of(output@)),
{
    let lines = split_lines(output);
    let ghost all = texts(lines@);
    let mut crates: Vec<CrateEntry> = Vec::new();
    let mut weird: Vec<String> = Vec::new();
    let mut i: usize = 0;
    assert(entries_view(crates@) =~= crates_of(all.take(0)));
    assert(texts(weird@) =~= weird_of(all.take(0)));
    while i < lines.len()
        invariant
            i <= lines.len(),
            all == texts(lines@),
            entries_view(crates@) == crates_of(all.take(i as int)),
            texts(weird@) == weird_of(all.take(i as int)),
        decreases lines.len() - i,
    {
        proof {
            assert(all.take(i + 1).drop_last() =~= all.take(i as int));
            assert(all.take(i + 1).last() == lines@[i as int]@);
        }
        match classify(lines[i].as_str()) {
            TreeLine::Blank => {},
            TreeLine::Entry(e) => {
                proof {
                    assert(entries_view(crates@.push(e)) =~= entries_view(crates@).push(e@));
                }
                crates.push(e);
            },
            TreeLine::Weird => {
                proof {
                    lemma_texts_push(weird@, lines@[i as int]);
                }
                let line = lines[i].clone();
                proof {
                    assert(texts(weird@.push(line)) =~= texts(weird@).push(lines@[i as int]@));
                }
                weird.push(line);
            },
        }
        i += 1;
    }
    assert(all.take(lines.len() as int) =~= all);
    Tree { crates, weird }
}

/// Width of the column of names in the list of crates.
pub const NAME_COLUMN: usize = 28;

/// The first `n` parts of a name, with dashes between them.
pub open spec fn name_text(name: Seq<Seq<char>>, n: int) -> Seq<char>
    decreases n,
{
    if n <= 0 {
        Seq::empty()
    } else if n == 1 {
        name[0]
    } else {
        name_text(name, n - 1) + seq!['-'] + name[n - 1]
    }
}

/// `t`, filled with spaces at its end up to `width` characters.
pub open spec fn left_aligned(t: Seq<char>, width: nat) -> Seq<char> {
    if t.len() < width {
        t + Seq::new((width - t.len()) as nat, |i: int| ' ')
    } else {
        t
    }
}

/// The line of the list for one crate: its name in a column, then its
/// path.
pub open spec fn crate_line(e: CrateEntryView) -> Seq<char> {
    left_aligned(name_text(e.name, e.name.len() as int), NAME_COLUMN as nat) + seq![' '] + e.path
        + seq!['\n']
}

/// The lines of the crates with short names that belong to this project,
/// if `own` holds, or that do not, if it does not.
pub open spec fn short_names(entries: Seq<CrateEntryView>, own: bool) -> Seq<char>
    decreases entries.len(),
{
    if entries.len() == 0 {
        Seq::empty()
    } else if entries.last().name.len() < 3 && is_own(entries.last()) == own {
        short_names(entries.drop_last(), own) + crate_line(entries.last())
    } else {
        short_names(entries.drop_last(), own)
    }
}

/// What the names of a crate with a long name begin with: all parts but
/// the last.
pub open spec fn family(e: CrateEntryView) -> Seq<char> {
    name_text(e.name, e.name.len() - 1)
}

/// The family of the last crate with a long name among `entries`, or
/// nothing if there is none.
pub open spec fn last_family(entries: Seq<CrateEntryView>) -> Seq<char>
    decreases entries.len(),
{
    if entries.len() == 0 {
        Seq::empty()
    } else if entries.last().name.len() >= 3 {
        family(entries.last())
    } else {
        last_family(entries.drop_last())
    }
}

/// The lines of the crates with long names, with an empty line wherever a
/// new family begins.
pub open spec fn long_names(entries: Seq<CrateEntryView>) -> Seq<char>
    decreases entries.len(),
{
    if entries.len() == 0 {
        Seq::empty()
    } else if entries.last().name.len() >= 3 {
        let before = long_names(entries.drop_last());
        if family(entries.last()) != last_family(entries.drop_last()) {
            before + seq!['\n'] + crate_line(entries.last())
        } else {
            before + crate_line(entries.last())
        }
    } else {
        long_names(entries.drop_last())
    }
}

/// The list of crates: those of this project with short names, then those
/// with long names by family, then, after an empty line, the others with
/// short names.
pub open spec fn crate_list_spec(entries: Seq<CrateEntryView>) -> Seq<char> {
    short_names(entries, true) + long_names(entries) + seq!['\n'] + short_names(entries, false)
}

/// The first `n` parts of a name, with dashes between them.
fn dashed(name: &Vec<String>, n: usize) -> (s: String)
    requires
        n <= name.len(),
    ensures
        s@ == name_text(texts(name@), n as int),
{
    let mut s = String::new();
    let mut i: usize = 0;
    while i < n
        invariant
            i <= n <= name.len(),
            s@ == name_text(texts(name@), i as int),
        decreases n - i,
    {
        assert(texts(name@)[i as int] == name@[i as int]@);
        if i > 0 {
            s.append("-");
            proof {
                reveal_strlit("-");
                assert("-"@ =~= seq!['-']);
            }
        }
        s.append(name[i].as_str());
        proof {
            if i == 0 {
                assert(s@ =~= name@[0]@);
            }
        }
        i += 1;
    }
    s
}

/// Appends the line of the list for `e` to `out`.
fn push_line(out: &mut String, e: &CrateEntry)
    ensures
        final(out)@ == old(out)@ + crate_line(e@),
{
    let mut name = dashed(&e.name, e.name.len());
    let ghost text = name@;
    let len = name.as_str().unicode_len();
    if len < NAME_COLUMN {
        let fill: usize = NAME_COLUMN - len;
        let mut i: usize = 0;
        while i < fill
            invariant
                i <= fill,
                name@ == text + Seq::new(i as nat, |k: int| ' '),
            decreases fill - i,
        {
            name.append(" ");
            proof {
                reveal_strlit(" ");
                assert(" "@ =~= seq![' ']);
                assert(text + Seq::new((i + 1) as nat, |k: int| ' ') =~= (text + Seq::new(
                    i as nat,
                    |k: int| ' ',
                )) + seq![' ']);
            }
            i += 1;
        }
    }
    out.append(name.as_str());
    out.append(" ");
    out.append(e.path.as_str());
    out.append("\n");
    proof {
        reveal_strlit(" ");
        reveal_strlit("\n");
        assert(" "@ =~= seq![' ']);
        assert("\n"@ =~= seq!['\n']);
        assert(texts(e.name@).len() == e.name.len());
        assert(out@ =~= old(out)@ + crate_line(e@));
    }
}

/// Writes the list of crates. The crates are listed in the order given.
pub fn crate_list(crates: &Vec<CrateEntry>) -> (out: String)
    ensures
        out@ == crate_list_spec(entries_view(crates@)),
{
    let ghost all = entries_view(crates@);
    let mut out = String::new();
    let mut i: usize = 0;
    while i < crates.len()
        invariant
            i <= crates.len(),
            all == entries_view(crates@),
            out@ == short_names(all.take(i as int), true),
        decreases crates.len() - i,
    {
        proof {
            assert(all.take(i + 1).drop_last() =~= all.take(i as int));
            assert(all.take(i + 1).last() == crates@[i as int]@);
        }
        if crates[i].name.len() < 3 && crates[i].own() {
            push_line(&mut out, &crates[i]);
        }
        i += 1;
    }
    assert(all.take(crates.len() as int) =~= all);
    let ghost first = out@;
    let mut prior = String::new();
    i = 0;
    assert(out@ =~= first + long_names(all.take(0)));
    while i < crates.len()
        invariant
            i <= crates.len(),
            all == entries_view(crates@),
            out@ == first + long_names(all.take(i as int)),
            prior@ == last_family(all.take(i as int)),
        decreases crates.len() - i,
    {
        proof {
            assert(all.take(i + 1).drop_last() =~= all.take(i as int));
            assert(all.take(i + 1).last() == crates@[i as int]@);
        }
        let n = crates[i].name.len();
        if n >= 3 {
            let pfx = dashed(&crates[i].name, n - 1);
            if pfx != prior {
                out.append("\n");
                proof {
                    reveal_strlit("\n");
                    assert("\n"@ =~= seq!['\n']);
                }
                prior = pfx;
            }
            push_line(&mut out, &crates[i]);
            proof {
                assert(out@ =~= first + long_names(all.take(i + 1)));
            }
        }
        i += 1;
    }
    assert(all.take(crates.len() as int) =~= all);
    out.append("\n");
    proof {
        reveal_strlit("\n");
        assert("\n"@ =~= seq!['\n']);
    }
    let ghost second = out@;
    i = 0;
    assert(out@ =~= second + short_names(all.take(0), false));
    while i < crates.len()
        invariant
            i <= crates.len(),
            all == entries_view(crates@),
            out@ == second + short_names(all.take(i as int), false),
        decreases crates.len() - i,
    {
        proof {
            assert(all.take(i + 1).drop_last() =~= all.take(i as int));
            assert(all.take(i + 1).last() == crates@[i as int]@);
        }
        if crates[i].name.len() < 3 && !crates[i].own() {
            push_line(&mut out, &crates[i]);
            proof {
                assert(out@ =~= second + short_names(all.take(i + 1), false));
            }
        }
        i += 1;
    }
    assert(all.take(crates.len() as int) =~= all);
    out
}

} // verus!
