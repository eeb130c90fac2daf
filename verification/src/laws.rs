//! The store's laws: what the operations guarantee jointly, proved
//! from the specification functions their contracts use.

use vstd::prelude::*;

use crate::alias::AliasView;
use crate::store::lemma_dedup_of_unique;
use crate::store::lemma_dedup_same_tokens;
use crate::store::lemma_dedup_unique;
use crate::store::lemma_token_in_push;
use crate::store::spec_create;
use crate::store::spec_dedup;
use crate::store::spec_first_match;
use crate::store::spec_kept;
use crate::store::spec_removed;
use crate::store::token_in;
use crate::store::unique_tokens;

verus! {

/// The store after a sequence of creates, one per entry in order,
/// starting from an empty store.
pub open spec fn spec_create_all(entries: Seq<AliasView>) -> Seq<AliasView>
    decreases entries.len(),
{
    if entries.len() == 0 {
        Seq::empty()
    } else {
        spec_create(spec_create_all(entries.drop_last()), entries.last())
    }
}

/// How a scan behaves on a list grown by one record: the old first
/// match stands; only where there was none does the new record count.
pub proof fn lemma_first_match_push(s: Seq<AliasView>, a: AliasView, t: Seq<char>)
    ensures
        spec_first_match(s.push(a), t) == (if spec_first_match(s, t) is Some {
            spec_first_match(s, t)
        } else if a.token == t {
            Some(a)
        } else {
            None::<AliasView>
        }),
    decreases s.len(),
{
    if s.len() == 0 {
        assert(s.push(a).len() == 1);
        assert(s.push(a)[0] == a);
        assert(spec_first_match(s, t) is None);
        if a.token == t {
            assert(spec_first_match(s.push(a), t) == Some(a));
        } else {
            assert(s.push(a).drop_first() =~= Seq::<AliasView>::empty());
            assert(spec_first_match(Seq::<AliasView>::empty(), t) is None);
            assert(spec_first_match(s.push(a), t) is None);
        }
    } else {
        assert(s.push(a)[0] == s[0]);
        if s[0].token == t {
            assert(spec_first_match(s.push(a), t) == Some(s[0]));
            assert(spec_first_match(s, t) == Some(s[0]));
        } else {
            assert(s.push(a).drop_first() =~= s.drop_first().push(a));
            lemma_first_match_push(s.drop_first(), a, t);
            assert(spec_first_match(s.push(a), t) == spec_first_match(s.drop_first().push(a), t));
            assert(spec_first_match(s, t) == spec_first_match(s.drop_first(), t));
        }
    }
}

/// A scan finds nothing exactly when no record carries the token.
pub proof fn lemma_first_match_none_iff(s: Seq<AliasView>, t: Seq<char>)
    ensures
        spec_first_match(s, t) is None <==> !token_in(s, t),
    decreases s.len(),
{
    if s.len() == 0 {
    } else if s[0].token == t {
    } else {
        lemma_first_match_none_iff(s.drop_first(), t);
        if token_in(s, t) {
            let i = choose|i: int| 0 <= i < s.len() && s[i].token == t;
            assert(s.drop_first()[i - 1].token == t);
            assert(token_in(s.drop_first(), t));
        }
        if token_in(s.drop_first(), t) {
            let i = choose|i: int| 0 <= i < s.drop_first().len() && s.drop_first()[i].token == t;
            assert(s[i + 1].token == t);
        }
    }
}

/// Deduplication keeps the first occurrence per token, so it never
/// changes what a scan finds.
pub proof fn lemma_dedup_first_match(s: Seq<AliasView>, t: Seq<char>)
    ensures
        spec_first_match(spec_dedup(s), t) == spec_first_match(s, t),
    decreases s.len(),
{
    if s.len() == 0 {
    } else {
        let front = s.drop_last();
        let last = s.last();
        lemma_dedup_first_match(front, t);
        lemma_first_match_none_iff(front, t);
        assert(front.push(last) =~= s);
        lemma_first_match_push(front, last, t);
        if token_in(front, last.token) {
            assert(spec_dedup(s) == spec_dedup(front));
            if spec_first_match(front, t) is None && last.token == t {
                assert(token_in(front, t));
                assert(false);
            }
        } else {
            assert(spec_dedup(s) == spec_dedup(front).push(last));
            lemma_first_match_push(spec_dedup(front), last, t);
            lemma_first_match_none_iff(spec_dedup(front), t);
            lemma_dedup_same_tokens(front);
        }
    }
}

/// Creating under distinct explicit tokens, starting from an empty
/// store, stores exactly the given records, in order, each once: the
/// listing afterward maps each token to its target.
pub proof fn lemma_distinct_creates_store_all(entries: Seq<AliasView>)
    requires
        unique_tokens(entries),
    ensures
        spec_create_all(entries) == entries,
    decreases entries.len(),
{
    if entries.len() == 0 {
        assert(spec_create_all(entries) =~= entries);
    } else {
        let front = entries.drop_last();
        assert(unique_tokens(front));
        lemma_distinct_creates_store_all(front);
        assert(front.push(entries.last()) =~= entries);
        lemma_dedup_of_unique(entries);
    }
}

/// After a remove, no record carries the removed token.
pub proof fn lemma_kept_no_token(s: Seq<AliasView>, t: Seq<char>)
    ensures
        !token_in(spec_kept(s, t), t),
    decreases s.len(),
{
    if s.len() == 0 {
    } else {
        let front = s.drop_last();
        lemma_kept_no_token(front, t);
        if s.last().token != t {
            lemma_token_in_push(spec_kept(front, t), s.last());
        }
    }
}

/// Every token found after a remove was found before it.
pub proof fn lemma_kept_token_in(s: Seq<AliasView>, t: Seq<char>)
    ensures
        forall|u: Seq<char>| token_in(spec_kept(s, t), u) ==> token_in(s, u),
    decreases s.len(),
{
    if s.len() == 0 {
    } else {
        let front = s.drop_last();
        let last = s.last();
        lemma_kept_token_in(front, t);
        assert(front.push(last) =~= s);
        lemma_token_in_push(front, last);
        if last.token != t {
            lemma_token_in_push(spec_kept(front, t), last);
        }
        assert forall|u: Seq<char>| token_in(spec_kept(s, t), u) implies token_in(s, u) by {
            if last.token == t {
                assert(spec_kept(s, t) == spec_kept(front, t));
                assert(token_in(front, u));
                assert(token_in(front.push(last), u));
            } else {
                assert(spec_kept(s, t) == spec_kept(front, t).push(last));
                assert(token_in(spec_kept(front, t), u) || last.token == u);
                if token_in(spec_kept(front, t), u) {
                    assert(token_in(front, u));
                }
                assert(token_in(front.push(last), u));
            }
        }
    }
}

/// Removing a token that no record carries removes nothing.
pub proof fn lemma_removed_empty_of_no_token(s: Seq<AliasView>, t: Seq<char>)
    requires
        !token_in(s, t),
    ensures
        spec_removed(s, t) == Seq::<AliasView>::empty(),
    decreases s.len(),
{
    if s.len() == 0 {
        assert(spec_removed(s, t) =~= Seq::<AliasView>::empty());
    } else {
        assert(s[0].token != t);
        assert forall|i: int| 0 <= i < s.drop_first().len() implies s.drop_first()[i].token
            != t by {
            assert(s[i + 1].token == s.drop_first()[i].token);
        }
        lemma_removed_empty_of_no_token(s.drop_first(), t);
    }
}

/// Idempotence of shape: removing a token and then removing it again
/// returns an empty sequence the second time.
pub proof fn lemma_remove_twice_removes_nothing(s: Seq<AliasView>, t: Seq<char>)
    ensures
        spec_removed(spec_kept(s, t), t) == Seq::<AliasView>::empty(),
{
    lemma_kept_no_token(s, t);
    lemma_removed_empty_of_no_token(spec_kept(s, t), t);
}

/// Round trip: a create under a token that no record carries stores a
/// record that a lookup of that token finds, target and flag intact.
pub proof fn lemma_create_then_lookup(s: Seq<AliasView>, a: AliasView)
    requires
        !token_in(s, a.token),
    ensures
        spec_first_match(spec_create(s, a), a.token) == Some(a),
{
    lemma_dedup_first_match(s.push(a), a.token);
    lemma_first_match_push(s, a, a.token);
    lemma_first_match_none_iff(s, a.token);
}

/// Every create leaves the store's tokens unique.
pub proof fn lemma_create_unique(s: Seq<AliasView>, a: AliasView)
    ensures
        unique_tokens(spec_create(s, a)),
{
    lemma_dedup_unique(s.push(a));
}

/// A remove keeps the store's tokens unique.
pub proof fn lemma_remove_preserves_unique(s: Seq<AliasView>, t: Seq<char>)
    requires
        unique_tokens(s),
    ensures
        unique_tokens(spec_kept(s, t)),
    decreases s.len(),
{
    if s.len() == 0 {
    } else {
        let front = s.drop_last();
        let last = s.last();
        assert(unique_tokens(front));
        lemma_remove_preserves_unique(front, t);
        if last.token != t {
            let k = spec_kept(front, t).push(last);
            lemma_kept_token_in(front, t);
            assert forall|i: int, j: int| 0 <= i < j < k.len() implies k[i].token != k[j].token by {
                if j < k.len() - 1 {
                    assert(spec_kept(front, t)[i].token != spec_kept(front, t)[j].token);
                } else {
                    assert(k[i] == spec_kept(front, t)[i]);
                    assert(token_in(spec_kept(front, t), k[i].token));
                    assert(token_in(front, k[i].token));
                    if k[i].token == last.token {
                        let m = choose|m: int| 0 <= m < front.len() && front[m].token
                            == last.token;
                        assert(s[m].token == s[s.len() - 1].token);
                        assert(false);
                    }
                }
            }
        }
    }
}

/// Two creates under one token, committed one after the other as the
/// lock serializes them, leave exactly one record for that token, and
/// it is the first committed one when the token was free before.
pub proof fn lemma_two_creates_one_survivor(s: Seq<AliasView>, a1: AliasView, a2: AliasView)
    requires
        a1.token == a2.token,
    ensures
        unique_tokens(spec_create(spec_create(s, a1), a2)),
        spec_first_match(spec_create(spec_create(s, a1), a2), a1.token) == spec_first_match(
            s.push(a1),
            a1.token,
        ),
        !token_in(s, a1.token) ==> spec_first_match(spec_create(spec_create(s, a1), a2), a1.token)
            == Some(a1),
{
    let l1 = spec_create(s, a1);
    lemma_dedup_unique(l1.push(a2));
    lemma_dedup_first_match(l1.push(a2), a1.token);
    lemma_first_match_push(l1, a2, a1.token);
    lemma_dedup_first_match(s.push(a1), a1.token);
    lemma_first_match_push(s, a1, a1.token);
    lemma_first_match_none_iff(s, a1.token);
}

} // verus!
