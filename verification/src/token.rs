//! Tokens: the short keys under which aliases are stored, their
//! validity rule, and random generation of fresh ones.

use vstd::prelude::*;
use vstd::string::StrSliceExecFns;

use crate::alias::Alias;
use crate::alias::AliasView;
use crate::alias::views_of;
use crate::store::contains_token;
use crate::store::token_in;

verus! {

/// Number of characters in a generated token.
pub const TOKEN_LENGTH: usize = 6;

/// How many random candidates a create tries before giving up.  The
/// search is rejection sampling over a space of 62^6 tokens, so
/// against the small datasets the store targets, the first candidate
/// is almost always free; the bound only makes termination plain.
pub const GENERATION_ATTEMPTS: u64 = 4096;

/// A token is acceptable when it contains no `?`, which is reserved
/// for query strings.
pub open spec fn token_valid(t: Seq<char>) -> bool {
    !t.contains('?')
}

/// The characters a generated token is drawn from: ASCII letters and
/// digits.
pub open spec fn is_alphanumeric_char(c: char) -> bool {
    ||| 'a' as u32 <= c as u32 && c as u32 <= 'z' as u32
    ||| 'A' as u32 <= c as u32 && c as u32 <= 'Z' as u32
    ||| '0' as u32 <= c as u32 && c as u32 <= '9' as u32
}

/// What token generation promises: six alphanumeric characters,
/// carried by no existing record.
pub open spec fn generated_token_ok(t: Seq<char>, existing: Seq<AliasView>) -> bool {
    &&& t.len() == TOKEN_LENGTH
    &&& forall|i: int| 0 <= i < t.len() ==> is_alphanumeric_char(t[i])
    &&& !token_in(existing, t)
}

/// An all-alphanumeric token contains neither `?` (so it is always
/// valid) nor `%` (so percent-decoding leaves it unchanged).
pub proof fn lemma_alphanumeric_token_valid(t: Seq<char>)
    requires
        forall|i: int| 0 <= i < t.len() ==> is_alphanumeric_char(t[i]),
    ensures
        token_valid(t),
        !t.contains('%'),
{
    if t.contains('?') {
        let i = choose|i: int| 0 <= i < t.len() && t[i] == '?';
        assert(is_alphanumeric_char(t[i]));
        assert(false);
    }
    if t.contains('%') {
        let i = choose|i: int| 0 <= i < t.len() && t[i] == '%';
        assert(is_alphanumeric_char(t[i]));
        assert(false);
    }
}

/// Decides whether a token is acceptable to the store.
pub fn check_token(t: &str) -> (r: bool)
    ensures
        r == token_valid(t@),
{
    let len = t.unicode_len();
    let mut i: usize = 0;
    while i < len
        invariant
            i <= len,
            len == t@.len(),
            forall|j: int| 0 <= j < i ==> t@[j] != '?',
        decreases len - i,
    {
        if t.get_char(i) == '?' {
            return false;
        }
        i = i + 1;
    }
    true
}

/// Relies on rand's `Alphanumeric` distribution: `sample_string` draws
/// exactly `len` characters, each one of `A`-`Z`, `a`-`z`, `0`-`9`.
#[verifier::external_body]
fn sample_alphanumeric(len: usize) -> (r: String)
    ensures
        r@.len() == len,
        forall|i: int| 0 <= i < r@.len() ==> is_alphanumeric_char(r@[i]),
{
    rand::distributions::DistString::sample_string(
        &rand::distributions::Alphanumeric,
        &mut rand::thread_rng(),
        len,
    )
}

/// Draws random six-character alphanumeric tokens until one collides
/// with no existing record.  `None` only when every attempt in the
/// (generous) budget collided; the caller reports that as a failed
/// create rather than sampling without bound.
pub fn generate_token(existing: &Vec<Alias>) -> (r: Option<String>)
    ensures
        match r {
            Some(t) => generated_token_ok(t@, views_of(existing@)),
            None => true,
        },
{
    let mut attempts: u64 = 0;
    while attempts < GENERATION_ATTEMPTS
        invariant
            true,
        decreases GENERATION_ATTEMPTS - attempts,
    {
        let candidate = sample_alphanumeric(TOKEN_LENGTH);
        if !contains_token(existing, &candidate) {
            return Some(candidate);
        }
        attempts = attempts + 1;
    }
    None
}

} // verus!
