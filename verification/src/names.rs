//! Naming policy for hosts, jobs and shared keys.

use vstd::prelude::*;

verus! {

/// The characters a host or job name may be made of.
pub open spec fn is_name_char(c: char) -> bool {
    ('a' <= c && c <= 'z') || ('0' <= c && c <= '9') || c == '_' || c == '-'
}

/// The characters a shared key may be made of.
pub open spec fn is_key_char(c: char) -> bool {
    ('a' <= c && c <= 'z') || ('A' <= c && c <= 'Z') || ('0' <= c && c <= '9')
}

/// A name is acceptable when it is at least two characters long and every
/// character is a lower-case letter, a digit, `_` or `-`.
pub open spec fn name_ok_spec(n: Seq<char>) -> bool {
    n.len() >= 2 && forall|i: int| 0 <= i < n.len() ==> is_name_char(#[trigger] n[i])
}

/// Length of a shared key.
pub const KEY_LENGTH: usize = 64;

/// A key is acceptable when it is exactly 64 ASCII letters and digits.
pub open spec fn key_ok_spec(k: Seq<char>) -> bool {
    k.len() == KEY_LENGTH && forall|i: int| 0 <= i < k.len() ==> is_key_char(#[trigger] k[i])
}

fn name_char(c: char) -> (r: bool)
    ensures
        r == is_name_char(c),
{
    ('a' <= c && c <= 'z') || ('0' <= c && c <= '9') || c == '_' || c == '-'
}

fn key_char(c: char) -> (r: bool)
    ensures
        r == is_key_char(c),
{
    ('a' <= c && c <= 'z') || ('A' <= c && c <= 'Z') || ('0' <= c && c <= '9')
}

/// Host and job names become path components, so they are held to a narrow
/// alphabet.
pub fn name_ok(n: &str) -> (r: bool)
    ensures
        r == name_ok_spec(n@),
{
    let len = n.unicode_len();
    let mut i: usize = 0;
    while i < len
        invariant
            len == n@.len(),
            i <= len,
            forall|j: int| 0 <= j < i ==> is_name_char(#[trigger] n@[j]),
        decreases len - i,
    {
        if !name_char(n.get_char(i)) {
            return false;
        }
        i += 1;
    }
    len >= 2
}

/// Clients propose their own key at enrolment; it must at least look like
/// one.
pub fn key_ok(k: &str) -> (r: bool)
    ensures
        r == key_ok_spec(k@),
{
    let len = k.unicode_len();
    if len != KEY_LENGTH {
        return false;
    }
    let mut i: usize = 0;
    while i < len
        invariant
            len == k@.len(),
            i <= len,
            forall|j: int| 0 <= j < i ==> is_key_char(#[trigger] k@[j]),
        decreases len - i,
    {
        if !key_char(k.get_char(i)) {
            return false;
        }
        i += 1;
    }
    true
}

} // verus!
