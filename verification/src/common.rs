//! Fresh keys and run identifiers.

use vstd::prelude::*;
use rand::Rng;
use crate::names::{is_key_char, key_ok_spec};

verus! {

/// `Rng::sample_iter` of `rand` with its `Alphanumeric` distribution, on the
/// thread's generator: `len` characters, each an ASCII letter or digit. Which
/// ones is left open.
#[verifier::external_body]
fn sample_alphanumeric(len: usize) -> (s: String)
    ensures
        s@.len() == len,
        forall|i: int| 0 <= i < s@.len() ==> is_key_char(#[trigger] s@[i]),
{
    rand::thread_rng().sample_iter(&rand::distributions::Alphanumeric).take(len).map(
        |c| c as char,
    ).collect()
}

/// A fresh random string of `len` ASCII letters and digits.
pub fn genkey(len: usize) -> (s: String)
    ensures
        s@.len() == len,
        forall|i: int| 0 <= i < s@.len() ==> is_key_char(#[trigger] s@[i]),
        len == 64 ==> key_ok_spec(s@),
{
    sample_alphanumeric(len)
}

} // verus!
