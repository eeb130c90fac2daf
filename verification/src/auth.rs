//! The access authorizer: checks an optional caller-supplied key
//! against the newline-delimited allow-list read from the access-key
//! resource.

use vstd::prelude::*;
use vstd::string::StrSliceExecFns;

verus! {

/// Why an authorization failed.
#[derive(Debug, Clone, Copy, PartialEq, Eq, Structural)]
pub enum AuthError {
    /// No key was supplied and anonymous access is not permitted.
    KeyRequired,
    /// The supplied key matches no line of the allow-list.
    InvalidKey,
}

/// The views of a sequence of strings.
pub open spec fn string_views(s: Seq<String>) -> Seq<Seq<char>> {
    s.map_values(|x: String| x@)
}

/// `s` split at every newline: the pieces between `\n` characters, in
/// order.  A text without `\n` is one piece; every `\n` ends a piece,
/// so a trailing newline yields a final empty piece.
pub open spec fn spec_lines(s: Seq<char>) -> Seq<Seq<char>>
    decreases s.len(),
{
    if s.len() == 0 {
        seq![Seq::<char>::empty()]
    } else if s[0] == '\n' {
        seq![Seq::<char>::empty()] + spec_lines(s.drop_first())
    } else {
        let rest = spec_lines(s.drop_first());
        seq![seq![s[0]] + rest[0]] + rest.drop_first()
    }
}

/// Splitting yields at least one piece.
pub proof fn lemma_spec_lines_nonempty(s: Seq<char>)
    ensures
        spec_lines(s).len() >= 1,
    decreases s.len(),
{
    if s.len() == 0 {
    } else {
        lemma_spec_lines_nonempty(s.drop_first());
    }
}

/// Splits a text at every newline, as the allow-list file is read.
pub fn split_lines(s: &str) -> (r: Vec<String>)
    ensures
        string_views(r@) == spec_lines(s@),
{
    let len = s.unicode_len();
    let mut out: Vec<String> = Vec::new();
    let mut cur = String::new();
    let mut i: usize = 0;
    proof {
        assert(s@.skip(0) =~= s@);
        lemma_spec_lines_nonempty(s@);
        assert(cur@ + spec_lines(s@)[0] =~= spec_lines(s@)[0]);
        assert(string_views(out@) + seq![spec_lines(s@)[0]] + spec_lines(s@).drop_first()
            =~= seq![spec_lines(s@)[0]] + spec_lines(s@).drop_first());
        assert(seq![spec_lines(s@)[0]] + spec_lines(s@).drop_first() =~= spec_lines(s@));
    }
    while i < len
        invariant
            i <= len,
            len == s@.len(),
            spec_lines(s@.skip(i as int)).len() >= 1,
            string_views(out@) + seq![cur@ + spec_lines(s@.skip(i as int))[0]] + spec_lines(
                s@.skip(i as int),
            ).drop_first() == spec_lines(s@),
        decreases len - i,
    {
        let ghost skip_i = s@.skip(i as int);
        let ghost skip_i1 = s@.skip(i as int + 1);
        let ghost li1 = spec_lines(skip_i1);
        proof {
            assert(skip_i[0] == s@[i as int]);
            assert(skip_i.drop_first() =~= skip_i1);
            lemma_spec_lines_nonempty(skip_i1);
        }
        let c = s.get_char(i);
        if c == '\n' {
            let ghost out0 = string_views(out@);
            let ghost cur0 = cur@;
            out.push(cur);
            cur = String::new();
            proof {
                assert(spec_lines(skip_i) == seq![Seq::<char>::empty()] + li1);
                assert(spec_lines(skip_i)[0] =~= Seq::<char>::empty());
                assert(cur0 + spec_lines(skip_i)[0] =~= cur0);
                assert(spec_lines(skip_i).drop_first() =~= li1);
                assert(string_views(out@) =~= out0.push(cur0));
                assert(cur@ + li1[0] =~= li1[0]);
                assert(seq![li1[0]] + li1.drop_first() =~= li1);
                assert(string_views(out@) + seq![cur@ + li1[0]] + li1.drop_first() =~= out0
                    + seq![cur0] + li1);
                assert(out0 + seq![cur0 + spec_lines(skip_i)[0]] + spec_lines(skip_i).drop_first()
                    =~= out0 + seq![cur0] + li1);
            }
        } else {
            let ghost cur0 = cur@;
            let piece = s.substring_char(i, i + 1);
            proof {
                assert(piece@ =~= seq![s@[i as int]]);
            }
            cur.append(piece);
            proof {
                assert(spec_lines(skip_i) == seq![seq![skip_i[0]] + li1[0]] + li1.drop_first());
                assert(cur@ =~= cur0 + seq![s@[i as int]]);
                assert(cur@ + li1[0] =~= cur0 + (seq![s@[i as int]] + li1[0]));
                assert(cur0 + spec_lines(skip_i)[0] =~= cur0 + (seq![s@[i as int]] + li1[0]));
                assert(spec_lines(skip_i).drop_first() =~= li1.drop_first());
            }
        }
        i = i + 1;
    }
    proof {
        assert(s@.skip(len as int) =~= Seq::<char>::empty());
        assert(spec_lines(s@.skip(len as int)) == seq![Seq::<char>::empty()]);
        assert(cur@ + spec_lines(s@.skip(len as int))[0] =~= cur@);
    }
    let ghost out0 = string_views(out@);
    let ghost cur0 = cur@;
    out.push(cur);
    proof {
        assert(string_views(out@) =~= out0.push(cur0));
        assert(out0 + seq![cur0] + seq![Seq::<char>::empty()].drop_first() =~= out0.push(cur0));
    }
    out
}

/// Decides whether `k` stands among the strings of `v`.
pub fn contains_string(v: &Vec<String>, k: &String) -> (r: bool)
    ensures
        r == string_views(v@).contains(k@),
{
    let n = v.len();
    let mut i: usize = 0;
    while i < n
        invariant
            i <= n,
            n == v@.len(),
            forall|j: int| 0 <= j < i ==> string_views(v@)[j] != k@,
        decreases n - i,
    {
        if v[i] == *k {
            assert(string_views(v@)[i as int] == k@);
            return true;
        }
        i = i + 1;
    }
    assert(!string_views(v@).contains(k@));
    false
}

/// Whether the service demands a key: it does exactly when the
/// access-key resource exists and is non-empty; a missing or empty
/// list falls back to anonymous access.
pub fn access_key_required(keys_content: &Option<String>) -> (r: bool)
    ensures
        r == (match keys_content {
            Some(c) => c@.len() > 0,
            None => false,
        }),
{
    match keys_content {
        Some(c) => !c.as_str().is_empty(),
        None => false,
    }
}

/// The authorization decision.  With a key supplied, it succeeds
/// exactly when the key matches one line of the allow-list text;
/// without one, exactly when no key is demanded.  The allow-list text
/// is re-read by the caller on every request, so edits take effect at
/// once.
pub fn check_access_key(keys_content: &str, key_required: bool, provided: Option<&String>) -> (r:
    Result<(), AuthError>)
    ensures
        match provided {
            Some(k) => r == (if spec_lines(keys_content@).contains(k@) {
                Ok::<(), AuthError>(())
            } else {
                Err::<(), AuthError>(AuthError::InvalidKey)
            }),
            None => r == (if key_required {
                Err::<(), AuthError>(AuthError::KeyRequired)
            } else {
                Ok::<(), AuthError>(())
            }),
        },
{
    match provided {
        Some(k) => {
            let lines = split_lines(keys_content);
            if contains_string(&lines, k) {
                Ok(())
            } else {
                Err(AuthError::InvalidKey)
            }
        },
        None => {
            if key_required {
                Err(AuthError::KeyRequired)
            } else {
                Ok(())
            }
        },
    }
}

} // verus!
