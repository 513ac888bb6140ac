//! Text as sequences of characters: decimal numbers, white space, lines,
//! order, and the two operations that are left to the standard library.

use vstd::prelude::*;

verus! {

/// `String::push` of the standard library: the character is appended to the
/// end of the string and nothing else changes.
#[verifier::external_body]
fn push_char(s: &mut String, c: char)
    ensures
        final(s)@ == old(s)@.push(c),
{
    s.push(c)
}

/// The characters of `s`, in order.
pub fn chars_of(s: &str) -> (v: Vec<char>)
    ensures
        v@ == s@,
{
    let mut v: Vec<char> = Vec::new();
    let it = s.chars();
    for c in iter: it
        invariant
            v@ == s@.take(iter.index() as int),
            iter.seq() == s@,
    {
        v.push(c);
        assert(s@.take(iter.index() + 1) == s@.take(iter.index() as int).push(c));
    }
    assert(s@.take(s@.len() as int) == s@);
    v
}

/// Whether `a` and `b` hold the same characters in the same order.
pub fn str_eq(a: &str, b: &str) -> (r: bool)
    ensures
        r == (a@ == b@),
{
    let x = chars_of(a);
    let y = chars_of(b);
    if x.len() != y.len() {
        return false;
    }
    let mut i: usize = 0;
    while i < x.len()
        invariant
            i <= x.len(),
            x.len() == y.len(),
            x@ == a@,
            y@ == b@,
            forall|j: int| 0 <= j < i ==> x@[j] == y@[j],
        decreases x.len() - i,
    {
        if x[i] != y[i] {
            return false;
        }
        i += 1;
    }
    assert(x@ =~= y@);
    true
}

/// The string made of the characters `v[from..to]`.
pub fn string_of(v: &Vec<char>, from: usize, to: usize) -> (s: String)
    requires
        from <= to <= v.len(),
    ensures
        s@ == v@.subrange(from as int, to as int),
{
    let mut s = String::new();
    let mut i: usize = from;
    while i < to
        invariant
            from <= i <= to <= v.len(),
            s@ == v@.subrange(from as int, i as int),
        decreases to - i,
    {
        push_char(&mut s, v[i]);
        assert(v@.subrange(from as int, i + 1) == v@.subrange(from as int, i as int).push(v@[i as int]));
        i += 1;
    }
    s
}

/// Whether `s` ends with `suffix`.
pub open spec fn has_suffix(s: Seq<char>, suffix: Seq<char>) -> bool {
    suffix.len() <= s.len() && s.subrange(s.len() - suffix.len(), s.len() as int) == suffix
}

/// Whether the characters `v[..end]` end with `suffix`.
pub fn ends_with(v: &Vec<char>, end: usize, suffix: &Vec<char>) -> (r: bool)
    requires
        end <= v.len(),
    ensures
        r == has_suffix(v@.take(end as int), suffix@),
{
    let n = suffix.len();
    if n > end {
        return false;
    }
    let start = end - n;
    let ghost head = v@.take(end as int);
    let mut i: usize = 0;
    while i < n
        invariant
            n == suffix.len(),
            n <= end <= v.len(),
            start == end - n,
            i <= n,
            head == v@.take(end as int),
            forall|j: int| 0 <= j < i ==> v@[start + j] == suffix@[j],
        decreases n - i,
    {
        if v[start + i] != suffix[i] {
            assert(head.subrange(head.len() - n, head.len() as int)[i as int] != suffix@[i as int]);
            return false;
        }
        i += 1;
    }
    assert(head.subrange(head.len() - n, head.len() as int) =~= suffix@);
    true
}

/// The character that writes the digit `d`.
pub open spec fn digit_char(d: int) -> char {
    ('0' as int + d) as char
}

/// Whether `c` is one of `0` to `9`.
pub open spec fn is_digit(c: char) -> bool {
    '0' <= c && c <= '9'
}

/// The digit that `c` writes.
pub open spec fn digit_value(c: char) -> int {
    c as int - '0' as int
}

/// Whether every character of `s` is a digit.
pub open spec fn all_digits(s: Seq<char>) -> bool {
    forall|i: int| 0 <= i < s.len() ==> is_digit(#[trigger] s[i])
}

/// The decimal digits of `n`, most significant first, with no leading zero
/// except for zero itself.
pub open spec fn digits_text(n: nat) -> Seq<char>
    decreases n,
{
    if n < 10 {
        seq![digit_char(n as int)]
    } else {
        digits_text(n / 10).push(digit_char((n % 10) as int))
    }
}

/// Decimal text of an integer: a minus sign for negative numbers, then the
/// digits.
pub open spec fn decimal_text(v: int) -> Seq<char> {
    if v < 0 {
        seq!['-'] + digits_text((-v) as nat)
    } else {
        digits_text(v as nat)
    }
}

/// Decimal text of `n`, filled with leading zeros up to `width` characters.
pub open spec fn padded_text(n: nat, width: nat) -> Seq<char> {
    let d = digits_text(n);
    if d.len() < width {
        Seq::new((width - d.len()) as nat, |i: int| '0') + d
    } else {
        d
    }
}

/// The number that a sequence of digits writes.
pub open spec fn digits_value(s: Seq<char>) -> nat
    decreases s.len(),
{
    if s.len() == 0 {
        0
    } else {
        (digits_value(s.drop_last()) * 10 + digit_value(s.last())) as nat
    }
}

/// The digits of a number that may carry a sign: everything after a leading
/// `+` or `-`.
pub open spec fn unsigned_part(s: Seq<char>) -> Seq<char> {
    if s.len() > 0 && (s[0] == '+' || s[0] == '-') {
        s.subrange(1, s.len() as int)
    } else {
        s
    }
}

/// The value of a directory name that stands for a year, a month or a day:
/// digits, with an optional leading `+`, that fit in 32 bits.
pub open spec fn parse_u32_spec(s: Seq<char>) -> Option<u32> {
    let body = if s.len() > 0 && s[0] == '+' {
        s.subrange(1, s.len() as int)
    } else {
        s
    };
    if body.len() > 0 && all_digits(body) && digits_value(body) <= u32::MAX {
        Some(digits_value(body) as u32)
    } else {
        None
    }
}

/// The value of a signed decimal number: digits, with an optional leading
/// `+` or `-`, that fit in 64 bits.
pub open spec fn parse_i64_spec(s: Seq<char>) -> Option<i64> {
    let body = unsigned_part(s);
    let v = if s.len() > 0 && s[0] == '-' {
        -(digits_value(body) as int)
    } else {
        digits_value(body) as int
    };
    if body.len() > 0 && all_digits(body) && i64::MIN <= v <= i64::MAX {
        Some(v as i64)
    } else {
        None
    }
}

/// A longer run of digits never writes a smaller number than its beginning.
pub proof fn lemma_digits_value_grows(s: Seq<char>, k: int)
    requires
        all_digits(s),
        0 <= k <= s.len(),
    ensures
        digits_value(s.take(k)) <= digits_value(s),
    decreases s.len() - k,
{
    if k == s.len() {
        assert(s.take(k) == s);
    } else {
        lemma_digits_value_grows(s, k + 1);
        let t = s.take(k + 1);
        assert(t.drop_last() == s.take(k));
        assert(is_digit(s[k]));
        assert(t.last() == s[k]);
    }
}

fn digit_of(d: u8) -> (c: char)
    requires
        d < 10,
    ensures
        c == digit_char(d as int),
{
    (48u8 + d) as char
}

/// The digits of `n`, least significant first.
fn digits_reversed(n: u64) -> (rev: Vec<char>)
    ensures
        rev@.reverse() == digits_text(n as nat),
        rev@.len() >= 1,
{
    let mut rev: Vec<char> = Vec::new();
    let mut rest: u64 = n;
    while rest >= 10
        invariant
            digits_text(n as nat) == digits_text(rest as nat) + rev@.reverse(),
        decreases rest,
    {
        let d: u8 = (rest % 10) as u8;
        let c = digit_of(d);
        proof {
            let next = rev@.push(c);
            assert(next.reverse() =~= seq![c] + rev@.reverse());
            assert(digits_text(rest as nat) == digits_text((rest / 10) as nat).push(c));
            assert(digits_text((rest / 10) as nat).push(c) + rev@.reverse() =~= digits_text(
                (rest / 10) as nat,
            ) + next.reverse());
        }
        rev.push(c);
        rest = rest / 10;
    }
    let c = digit_of(rest as u8);
    proof {
        let next = rev@.push(c);
        assert(next.reverse() =~= seq![c] + rev@.reverse());
        assert(digits_text(rest as nat) =~= seq![c]);
    }
    rev.push(c);
    rev
}

/// Appends to `s` the characters of `rev`, last first.
fn push_reversed(s: &mut String, rev: &Vec<char>)
    ensures
        final(s)@ == old(s)@ + rev@.reverse(),
{
    let mut i: usize = rev.len();
    while i > 0
        invariant
            i <= rev.len(),
            s@ == old(s)@ + rev@.reverse().take(rev.len() - i),
        decreases i,
    {
        i -= 1;
        push_char(s, rev[i]);
        proof {
            let r = rev@.reverse();
            let k = rev.len() - i - 1;
            assert(r[k] == rev@[i as int]);
            assert(r.take(k + 1) =~= r.take(k).push(r[k]));
            assert(old(s)@ + r.take(k + 1) =~= (old(s)@ + r.take(k)).push(r[k]));
        }
    }
    assert(rev@.reverse().take(rev.len() as int) =~= rev@.reverse());
}

/// Decimal text of a signed integer, as `{}` would print it.
pub fn decimal(v: i64) -> (s: String)
    ensures
        s@ == decimal_text(v as int),
{
    let mut s = String::new();
    let magnitude: u64 = if v < 0 {
        push_char(&mut s, '-');
        ((-(v + 1)) as u64) + 1
    } else {
        v as u64
    };
    let rev = digits_reversed(magnitude);
    push_reversed(&mut s, &rev);
    proof {
        if v < 0 {
            assert(s@ =~= seq!['-'] + digits_text((-v) as nat));
        } else {
            assert(s@ =~= digits_text(v as nat));
        }
    }
    s
}

/// Decimal text of `n`, filled with leading zeros up to `width` characters,
/// as `{:0width}` would print it.
pub fn zero_padded(n: u32, width: usize) -> (s: String)
    ensures
        s@ == padded_text(n as nat, width as nat),
{
    let rev = digits_reversed(n as u64);
    let mut s = String::new();
    let ghost d = digits_text(n as nat);
    assert(rev@.len() == d.len()) by {
        assert(rev@.reverse().len() == rev@.len());
    }
    if rev.len() < width {
        let fill: usize = width - rev.len();
        let mut i: usize = 0;
        while i < fill
            invariant
                i <= fill,
                s@ == Seq::new(i as nat, |k: int| '0'),
            decreases fill - i,
        {
            push_char(&mut s, '0');
            i += 1;
            assert(s@ =~= Seq::new(i as nat, |k: int| '0'));
        }
    }
    push_reversed(&mut s, &rev);
    s
}

/// The number written by the digits `v[from..]`, if all of them are digits,
/// there is at least one, and the number is at most `limit`.
fn parse_digits(v: &Vec<char>, from: usize, limit: u64) -> (r: Option<u64>)
    requires
        from <= v.len(),
    ensures
        ({
            let body = v@.subrange(from as int, v.len() as int);
            r == if body.len() > 0 && all_digits(body) && digits_value(body) <= limit {
                Some(digits_value(body) as u64)
            } else {
                None::<u64>
            }
        }),
{
    let ghost body = v@.subrange(from as int, v.len() as int);
    if from == v.len() {
        return None;
    }
    let mut acc: u64 = 0;
    let mut i: usize = from;
    while i < v.len()
        invariant
            from <= i <= v.len(),
            body == v@.subrange(from as int, v.len() as int),
            all_digits(body.take(i - from)),
            acc == digits_value(body.take(i - from)),
            acc <= limit,
        decreases v.len() - i,
    {
        let c = v[i];
        assert(body[i - from] == c);
        if !('0' <= c && c <= '9') {
            assert(!is_digit(body[i - from]));
            return None;
        }
        let d: u64 = (c as u32 - '0' as u32) as u64;
        let next: u128 = acc as u128 * 10 + d as u128;
        proof {
            let t = body.take(i - from + 1);
            assert(t.drop_last() == body.take(i - from));
            assert(t.last() == c);
            assert(digits_value(t) == next);
            assert(all_digits(t)) by {
                assert forall|j: int| 0 <= j < t.len() implies is_digit(#[trigger] t[j]) by {
                    if j < t.len() - 1 {
                        assert(t[j] == body.take(i - from)[j]);
                    }
                }
            }
        }
        if next > limit as u128 {
            proof {
                if all_digits(body) {
                    lemma_digits_value_grows(body, i - from + 1);
                }
            }
            return None;
        }
        acc = next as u64;
        i += 1;
    }
    assert(body.take(i - from) == body);
    Some(acc)
}

/// Reads a directory name as a year, a month or a day.
pub fn parse_u32(s: &str) -> (r: Option<u32>)
    ensures
        r == parse_u32_spec(s@),
{
    let v = chars_of(s);
    let from: usize = if v.len() > 0 && v[0] == '+' {
        1
    } else {
        0
    };
    assert(v@.subrange(0, v.len() as int) == v@);
    match parse_digits(&v, from, 0xffff_ffff) {
        Some(n) => Some(n as u32),
        None => None,
    }
}

/// Reads a signed decimal number.
pub fn parse_i64(s: &str) -> (r: Option<i64>)
    ensures
        r == parse_i64_spec(s@),
{
    let v = chars_of(s);
    let negative = v.len() > 0 && v[0] == '-';
    let from: usize = if v.len() > 0 && (v[0] == '+' || v[0] == '-') {
        1
    } else {
        0
    };
    assert(v@.subrange(0, v.len() as int) == v@);
    match parse_digits(&v, from, 0x8000_0000_0000_0000) {
        Some(n) => {
            if negative {
                if n == 0x8000_0000_0000_0000 {
                    Some(i64::MIN)
                } else {
                    Some(-(n as i64))
                }
            } else if n == 0x8000_0000_0000_0000 {
                None
            } else {
                Some(n as i64)
            }
        },
        None => None,
    }
}

} // verus!

verus! {

/// The texts that a sequence of strings holds.
pub open spec fn texts(v: Seq<String>) -> Seq<Seq<char>> {
    Seq::new(v.len(), |i: int| v[i]@)
}

/// Pushing a string onto a list pushes its text onto the list's texts.
pub proof fn lemma_texts_push(v: Seq<String>, s: String)
    ensures
        texts(v.push(s)) == texts(v).push(s@),
{
    assert(texts(v.push(s)) =~= texts(v).push(s@));
}

} // verus!

verus! {

/// The text that the standard library's lossy UTF-8 decoding gives for a
/// sequence of bytes.
pub uninterp spec fn lossy_text(bytes: Seq<u8>) -> Seq<char>;

/// `String::from_utf8_lossy` of the standard library: the text depends on
/// the bytes alone, and decoding never fails. Nothing is claimed about what
/// the text holds.
#[verifier::external_body]
pub(crate) fn decode_lossy(bytes: &Vec<u8>) -> (s: String)
    ensures
        s@ == lossy_text(bytes@),
{
    String::from_utf8_lossy(bytes).into_owned()
}

/// `s` without the line feed at its end, if it has one.
pub open spec fn without_newline(s: Seq<char>) -> Seq<char> {
    if s.len() > 0 && s.last() == '\n' {
        s.drop_last()
    } else {
        s
    }
}

/// Removes the line feed that ends `s`, if there is one.
pub fn strip_newline(s: String) -> (r: String)
    ensures
        r@ == without_newline(s@),
{
    let v = chars_of(s.as_str());
    let n = v.len();
    if n > 0 && v[n - 1] == '\n' {
        string_of(&v, 0, n - 1)
    } else {
        s
    }
}

} // verus!

verus! {

/// Whether `a` comes no later than `b` when texts are ordered character by
/// character, a text before all that it begins.
pub open spec fn text_le(a: Seq<char>, b: Seq<char>) -> bool
    decreases a.len(),
{
    if a.len() == 0 {
        true
    } else if b.len() == 0 {
        false
    } else if a[0] != b[0] {
        a[0] < b[0]
    } else {
        text_le(a.drop_first(), b.drop_first())
    }
}

/// `s` with `x` put behind the last text that comes no later than `x`.
pub open spec fn with_text(s: Seq<Seq<char>>, x: Seq<char>) -> Seq<Seq<char>>
    decreases s.len(),
{
    if s.len() == 0 {
        seq![x]
    } else if text_le(s.last(), x) {
        s.push(x)
    } else {
        with_text(s.drop_last(), x).push(s.last())
    }
}

/// A list of texts put in order, one text after the other.
pub open spec fn sorted_texts(names: Seq<Seq<char>>) -> Seq<Seq<char>>
    decreases names.len(),
{
    if names.len() == 0 {
        Seq::empty()
    } else {
        with_text(sorted_texts(names.drop_last()), names.last())
    }
}

/// Whether each text comes no later than the one after it.
pub open spec fn texts_in_order(s: Seq<Seq<char>>) -> bool {
    forall|i: int| 0 <= i < s.len() - 1 ==> text_le(#[trigger] s[i], s[i + 1])
}

/// Putting a text in its place keeps the order and adds that text and
/// nothing else.
pub proof fn lemma_with_text(s: Seq<Seq<char>>, x: Seq<char>)
    requires
        texts_in_order(s),
    ensures
        texts_in_order(with_text(s, x)),
        with_text(s, x).to_multiset() == s.to_multiset().insert(x),
        with_text(s, x).len() == s.len() + 1,
        with_text(s, x).last() == x || (s.len() > 0 && with_text(s, x).last() == s.last()
            && !text_le(s.last(), x)),
    decreases s.len(),
{
    let r = with_text(s, x);
    if s.len() == 0 {
        vstd::seq_lib::to_multiset_build(s, x);
        assert(r =~= s.push(x));
    } else if text_le(s.last(), x) {
        vstd::seq_lib::to_multiset_build(s, x);
        assert forall|i: int| 0 <= i < r.len() - 1 implies text_le(#[trigger] r[i], r[i + 1]) by {
            if i < s.len() - 1 {
                assert(r[i] == s[i] && r[i + 1] == s[i + 1]);
            }
        }
    } else {
        let head = s.drop_last();
        assert forall|i: int| 0 <= i < head.len() - 1 implies text_le(
            #[trigger] head[i],
            head[i + 1],
        ) by {
            assert(head[i] == s[i] && head[i + 1] == s[i + 1]);
        }
        lemma_with_text(head, x);
        let u = with_text(head, x);
        vstd::seq_lib::to_multiset_build(u, s.last());
        vstd::seq_lib::to_multiset_build(head, s.last());
        assert(head.push(s.last()) =~= s);
        assert(r.to_multiset() =~= s.to_multiset().insert(x));
        assert forall|i: int| 0 <= i < r.len() - 1 implies text_le(#[trigger] r[i], r[i + 1]) by {
            if i < u.len() - 1 {
                assert(r[i] == u[i] && r[i + 1] == u[i + 1]);
            } else {
                assert(r[i] == u.last() && r[i + 1] == s.last());
                if u.last() == x {
                    lemma_text_le_total(s.last(), x);
                } else {
                    assert(u.last() == head.last());
                    assert(head.last() == s[s.len() - 2]);
                }
            }
        }
    }
}

/// A list put in order holds the texts it held before, each as often as
/// before, none later than the one after it.
pub proof fn lemma_sorted_texts(names: Seq<Seq<char>>)
    ensures
        texts_in_order(sorted_texts(names)),
        sorted_texts(names).to_multiset() == names.to_multiset(),
        sorted_texts(names).len() == names.len(),
    decreases names.len(),
{
    if names.len() == 0 {
        assert(sorted_texts(names) =~= names);
    } else {
        lemma_sorted_texts(names.drop_last());
        lemma_with_text(sorted_texts(names.drop_last()), names.last());
        vstd::seq_lib::to_multiset_build(names.drop_last(), names.last());
        assert(names.drop_last().push(names.last()) =~= names);
    }
}

/// Puts `x` behind the last text of `v` that comes no later than `x`.
fn insert_text(v: &mut Vec<String>, x: String)
    ensures
        texts(final(v)@) == with_text(texts(old(v)@), x@),
{
    let ghost before = texts(v@);
    let mut i: usize = v.len();
    assert(before.take(i as int) =~= before);
    assert(with_text(before.take(i as int), x@) + before.skip(i as int) =~= with_text(before, x@));
    while i > 0 && !text_no_later(v[i - 1].as_str(), x.as_str())
        invariant
            i <= v.len(),
            before == texts(v@),
            with_text(before, x@) == with_text(before.take(i as int), x@) + before.skip(i as int),
        decreases i,
    {
        proof {
            let head = before.take(i as int);
            assert(head.last() == before[i - 1]);
            assert(before[i - 1] == v@[i - 1]@);
            assert(head.drop_last() =~= before.take(i - 1));
            assert(with_text(before.take(i - 1), x@).push(before[i - 1]) + before.skip(i as int)
                =~= with_text(before.take(i - 1), x@) + before.skip(i - 1));
        }
        i -= 1;
    }
    proof {
        let head = before.take(i as int);
        if i > 0 {
            assert(head.last() == before[i - 1]);
            assert(before[i - 1] == v@[i - 1]@);
        }
        assert(with_text(head, x@) =~= head.push(x@));
        assert(texts(v@.insert(i as int, x)) =~= head.push(x@) + before.skip(i as int));
    }
    v.insert(i, x);
}

/// Puts a list of names in order.
pub fn sort_names(names: &Vec<String>) -> (sorted: Vec<String>)
    ensures
        texts(sorted@) == sorted_texts(texts(names@)),
{
    let ghost all = texts(names@);
    let mut sorted: Vec<String> = Vec::new();
    let mut k: usize = 0;
    assert(texts(sorted@) =~= sorted_texts(all.take(0)));
    while k < names.len()
        invariant
            k <= names.len(),
            all == texts(names@),
            texts(sorted@) == sorted_texts(all.take(k as int)),
        decreases names.len() - k,
    {
        proof {
            assert(all.take(k + 1).drop_last() =~= all.take(k as int));
            assert(all.take(k + 1).last() == names@[k as int]@);
        }
        insert_text(&mut sorted, names[k].clone());
        k += 1;
    }
    assert(all.take(names.len() as int) =~= all);
    sorted
}

/// Whether `c` is white space.
pub open spec fn is_space(c: char) -> bool {
    let n = c as int;
    (0x09 <= n <= 0x0D) || n == 0x20 || n == 0x85 || n == 0xA0 || n == 0x1680 || (0x2000 <= n
        <= 0x200A) || n == 0x2028 || n == 0x2029 || n == 0x202F || n == 0x205F || n == 0x3000
}

/// Whether `c` is white space.
pub fn space_char(c: char) -> (r: bool)
    ensures
        r == is_space(c),
{
    let n: u32 = c as u32;
    (0x09 <= n && n <= 0x0D) || n == 0x20 || n == 0x85 || n == 0xA0 || n == 0x1680 || (0x2000 <= n
        && n <= 0x200A) || n == 0x2028 || n == 0x2029 || n == 0x202F || n == 0x205F || n == 0x3000
}

/// How many characters of white space `s` begins with.
pub open spec fn leading_space(s: Seq<char>) -> int
    decreases s.len(),
{
    if s.len() == 0 || !is_space(s[0]) {
        0
    } else {
        1 + leading_space(s.drop_first())
    }
}

/// How many characters of white space `s` ends with.
pub open spec fn trailing_space(s: Seq<char>) -> int
    decreases s.len(),
{
    if s.len() == 0 || !is_space(s.last()) {
        0
    } else {
        1 + trailing_space(s.drop_last())
    }
}

/// A text without the white space at its two ends.
pub open spec fn trimmed(s: Seq<char>) -> Seq<char> {
    if leading_space(s) >= s.len() {
        Seq::empty()
    } else {
        s.subrange(leading_space(s), s.len() - trailing_space(s))
    }
}

/// `s` without the white space at its two ends.
pub fn trim(s: &str) -> (r: String)
    ensures
        r@ == trimmed(s@),
{
    let v = chars_of(s);
    let n = v.len();
    let mut a: usize = 0;
    assert(v@.skip(0) =~= v@);
    while a < n && space_char(v[a])
        invariant
            a <= n,
            n == v.len(),
            leading_space(v@) == a + leading_space(v@.skip(a as int)),
        decreases n - a,
    {
        proof {
            let rest = v@.skip(a as int);
            assert(rest[0] == v@[a as int]);
            assert(rest.drop_first() =~= v@.skip(a + 1));
        }
        a += 1;
    }
    proof {
        let rest = v@.skip(a as int);
        if a < n {
            assert(rest[0] == v@[a as int]);
        }
    }
    let mut b: usize = n;
    assert(v@.take(n as int) =~= v@);
    while b > a && space_char(v[b - 1])
        invariant
            a <= b <= n,
            n == v.len(),
            a < n ==> !is_space(v@[a as int]),
            a < n ==> b > a,
            trailing_space(v@) == (n - b) + trailing_space(v@.take(b as int)),
        decreases b,
    {
        proof {
            let head = v@.take(b as int);
            assert(head.last() == v@[b - 1]);
            assert(head.drop_last() =~= v@.take(b - 1));
        }
        b -= 1;
    }
    proof {
        let head = v@.take(b as int);
        if b > a {
            assert(head.last() == v@[b - 1]);
        }
    }
    string_of(&v, a, b)
}

/// The parts of `s` from `at` on that white space separates, where a part
/// has begun at `start` if `start` is not negative.
pub open spec fn fields_from(s: Seq<char>, at: int, start: int) -> Seq<Seq<char>>
    decreases s.len() - at,
{
    if at >= s.len() {
        if start >= 0 {
            seq![s.subrange(start, s.len() as int)]
        } else {
            Seq::empty()
        }
    } else if is_space(s[at]) {
        if start >= 0 {
            seq![s.subrange(start, at)] + fields_from(s, at + 1, -1)
        } else {
            fields_from(s, at + 1, -1)
        }
    } else {
        fields_from(
            s,
            at + 1,
            if start >= 0 {
                start
            } else {
                at
            },
        )
    }
}

/// The parts of a text that white space separates, in order. No part is
/// empty.
pub open spec fn whitespace_fields(s: Seq<char>) -> Seq<Seq<char>> {
    fields_from(s, 0, -1)
}

/// Splits `s` at white space.
pub fn split_whitespace(s: &str) -> (parts: Vec<String>)
    ensures
        texts(parts@) == whitespace_fields(s@),
{
    let v = chars_of(s);
    let mut parts: Vec<String> = Vec::new();
    let mut start: usize = 0;
    let mut inside = false;
    let mut at: usize = 0;
    assert(texts(parts@) + fields_from(v@, 0, -1) =~= fields_from(v@, 0, -1));
    while at < v.len()
        invariant
            at <= v.len(),
            inside ==> start <= at,
            whitespace_fields(v@) == texts(parts@) + fields_from(
                v@,
                at as int,
                if inside {
                    start as int
                } else {
                    -1
                },
            ),
        decreases v.len() - at,
    {
        if space_char(v[at]) {
            if inside {
                let part = string_of(&v, start, at);
                proof {
                    lemma_texts_push(parts@, part);
                    assert(texts(parts@) + (seq![part@] + fields_from(v@, at + 1, -1))
                        =~= texts(parts@).push(part@) + fields_from(v@, at + 1, -1));
                }
                parts.push(part);
                inside = false;
            }
        } else if !inside {
            inside = true;
            start = at;
        }
        at += 1;
    }
    if inside {
        let part = string_of(&v, start, v.len());
        proof {
            lemma_texts_push(parts@, part);
            assert(texts(parts@) + seq![part@] =~= texts(parts@).push(part@));
        }
        parts.push(part);
    } else {
        assert(texts(parts@) + Seq::<Seq<char>>::empty() =~= texts(parts@));
    }
    parts
}

/// The number of a character, with capital letters of the Latin alphabet
/// counted as their small ones.
pub open spec fn folded(c: char) -> int {
    if 'A' <= c && c <= 'Z' {
        c as int + 32
    } else {
        c as int
    }
}

/// Whether two texts are the same but for the case of the letters `a` to
/// `z`.
pub open spec fn same_but_for_case(a: Seq<char>, b: Seq<char>) -> bool {
    a.len() == b.len() && forall|i: int| 0 <= i < a.len() ==> folded(#[trigger] a[i]) == folded(b[i])
}

fn fold_char(c: char) -> (n: u32)
    ensures
        n == folded(c),
{
    if 'A' <= c && c <= 'Z' {
        c as u32 + 32
    } else {
        c as u32
    }
}

/// Whether `a` and `b` are the same but for the case of the letters `a` to
/// `z`.
pub fn eq_ignore_case(a: &str, b: &str) -> (r: bool)
    ensures
        r == same_but_for_case(a@, b@),
{
    let x = chars_of(a);
    let y = chars_of(b);
    if x.len() != y.len() {
        return false;
    }
    let mut i: usize = 0;
    while i < x.len()
        invariant
            i <= x.len(),
            x.len() == y.len(),
            x@ == a@,
            y@ == b@,
            forall|j: int| 0 <= j < i ==> folded(#[trigger] x@[j]) == folded(y@[j]),
        decreases x.len() - i,
    {
        if fold_char(x[i]) != fold_char(y[i]) {
            assert(folded(x@[i as int]) != folded(y@[i as int]));
            return false;
        }
        i += 1;
    }
    true
}

/// A line without the carriage return at its end, if it has one.
pub open spec fn without_return(l: Seq<char>) -> Seq<char> {
    if l.len() > 0 && l.last() == '\r' {
        l.drop_last()
    } else {
        l
    }
}

/// The lines of `s` from `at` on, where the line at hand began at `start`.
pub open spec fn lines_from(s: Seq<char>, at: int, start: int) -> Seq<Seq<char>>
    decreases s.len() - at,
{
    if at >= s.len() {
        if start < s.len() {
            seq![s.subrange(start, s.len() as int)]
        } else {
            Seq::empty()
        }
    } else if s[at] == '\n' {
        seq![without_return(s.subrange(start, at))] + lines_from(s, at + 1, at + 1)
    } else {
        lines_from(s, at + 1, start)
    }
}

/// The lines of a text: what stands between line feeds, without them and
/// without the carriage return before them. A line feed at the very end
/// begins no further line.
pub open spec fn lines_of(s: Seq<char>) -> Seq<Seq<char>> {
    lines_from(s, 0, 0)
}

/// Splits `s` into its lines.
pub fn split_lines(s: &str) -> (lines: Vec<String>)
    ensures
        texts(lines@) == lines_of(s@),
{
    let v = chars_of(s);
    let mut lines: Vec<String> = Vec::new();
    let mut start: usize = 0;
    let mut at: usize = 0;
    assert(texts(lines@) + lines_from(v@, 0, 0) =~= lines_from(v@, 0, 0));
    while at < v.len()
        invariant
            start <= at <= v.len(),
            lines_of(v@) == texts(lines@) + lines_from(v@, at as int, start as int),
        decreases v.len() - at,
    {
        if v[at] == '\n' {
            let end: usize = if at > start && v[at - 1] == '\r' {
                at - 1
            } else {
                at
            };
            let line = string_of(&v, start, end);
            proof {
                let l = v@.subrange(start as int, at as int);
                if at > start {
                    assert(l.last() == v@[at - 1]);
                }
                assert(line@ =~= without_return(l));
                lemma_texts_push(lines@, line);
                assert(texts(lines@) + (seq![line@] + lines_from(v@, at + 1, at + 1))
                    =~= texts(lines@).push(line@) + lines_from(v@, at + 1, at + 1));
            }
            lines.push(line);
            start = at + 1;
        }
        at += 1;
    }
    if start < v.len() {
        let line = string_of(&v, start, v.len());
        proof {
            lemma_texts_push(lines@, line);
            assert(texts(lines@) + seq![line@] =~= texts(lines@).push(line@));
        }
        lines.push(line);
    } else {
        assert(texts(lines@) + Seq::<Seq<char>>::empty() =~= texts(lines@));
    }
    lines
}

/// Where `c` first stands in `s` at or after `from`, or the length of `s`
/// if it does not.
pub open spec fn position(s: Seq<char>, from: int, c: char) -> int
    decreases s.len() - from,
{
    if from < 0 || from >= s.len() {
        s.len() as int
    } else if s[from] == c {
        from
    } else {
        position(s, from + 1, c)
    }
}

/// Finds where `c` first stands in `v` at or after `from`.
pub fn find_char(v: &Vec<char>, from: usize, c: char) -> (i: usize)
    ensures
        i == position(v@, from as int, c),
        from <= v.len() ==> from <= i <= v.len(),
{
    if from >= v.len() {
        return v.len();
    }
    let mut i: usize = from;
    while i < v.len() && v[i] != c
        invariant
            from <= i <= v.len(),
            position(v@, from as int, c) == position(v@, i as int, c),
        decreases v.len() - i,
    {
        i += 1;
    }
    i
}

/// Whether `a` comes no later than `b` in the order of texts.
pub fn text_no_later(a: &str, b: &str) -> (r: bool)
    ensures
        r == text_le(a@, b@),
{
    let x = chars_of(a);
    let y = chars_of(b);
    let mut i: usize = 0;
    assert(x@.skip(0) =~= x@ && y@.skip(0) =~= y@);
    while i < x.len() && i < y.len() && x[i] == y[i]
        invariant
            i <= x.len(),
            i <= y.len(),
            text_le(x@, y@) == text_le(x@.skip(i as int), y@.skip(i as int)),
        decreases x.len() - i,
    {
        proof {
            let xs = x@.skip(i as int);
            let ys = y@.skip(i as int);
            assert(xs[0] == x@[i as int] && ys[0] == y@[i as int]);
            assert(xs.drop_first() =~= x@.skip(i + 1));
            assert(ys.drop_first() =~= y@.skip(i + 1));
        }
        i += 1;
    }
    proof {
        let xs = x@.skip(i as int);
        let ys = y@.skip(i as int);
        assert(x@.skip(0) =~= x@ && y@.skip(0) =~= y@);
        if i < x.len() {
            assert(xs[0] == x@[i as int]);
        }
        if i < y.len() {
            assert(ys[0] == y@[i as int]);
        }
    }
    if i == x.len() {
        true
    } else if i == y.len() {
        false
    } else {
        x[i] < y[i]
    }
}

/// Of two texts, one comes no later than the other.
pub proof fn lemma_text_le_total(a: Seq<char>, b: Seq<char>)
    ensures
        text_le(a, b) || text_le(b, a),
    decreases a.len(),
{
    if a.len() > 0 && b.len() > 0 && a[0] == b[0] {
        lemma_text_le_total(a.drop_first(), b.drop_first());
    }
}

} // verus!
