//! The alias store: the list of records and the operations on it.
//!
//! Every operation of the service loads the full list from the backing
//! file, changes it in memory, and writes it back whole.  This module
//! is that in-memory step: [`AliasStore`] wraps the loaded list and the
//! mutations on it.  Reading and writing the file, and the lock around
//! the load-modify-save sequence, are the caller's business.

use vstd::prelude::*;

use crate::alias::Alias;
use crate::alias::AliasView;
use crate::alias::views_of;
use crate::token::check_token;
use crate::token::generate_token;
use crate::token::generated_token_ok;
use crate::token::lemma_alphanumeric_token_valid;
use crate::token::token_valid;

verus! {

/// Why a create was refused.
#[derive(Debug, Clone, Copy, PartialEq, Eq, Structural)]
pub enum CreateError {
    /// The resolved token contains `?`.
    InvalidToken,
    /// No explicit token was given and the bounded random search found
    /// no token free of collisions; practically unreachable against a
    /// small store, but the search is bounded so that it plainly ends.
    GenerationFailed,
}

/// True when some record in `s` carries the token `t`.
pub open spec fn token_in(s: Seq<AliasView>, t: Seq<char>) -> bool {
    exists|i: int| 0 <= i < s.len() && s[i].token == t
}

/// True when no two records in `s` share a token.
pub open spec fn unique_tokens(s: Seq<AliasView>) -> bool {
    forall|i: int, j: int| 0 <= i < j < s.len() ==> s[i].token != s[j].token
}

/// Deduplication by token, keeping only the first record per token in
/// list order.  Every create runs this over the whole list, so a
/// collision keeps the pre-existing record, not the new one.
pub open spec fn spec_dedup(s: Seq<AliasView>) -> Seq<AliasView>
    decreases s.len(),
{
    if s.len() == 0 {
        Seq::empty()
    } else {
        let front = spec_dedup(s.drop_last());
        if token_in(s.drop_last(), s.last().token) {
            front
        } else {
            front.push(s.last())
        }
    }
}

/// What a create leaves in the store: the new record appended, then
/// the whole list deduplicated by token, first occurrence kept.
pub open spec fn spec_create(s: Seq<AliasView>, a: AliasView) -> Seq<AliasView> {
    spec_dedup(s.push(a))
}

/// What a remove leaves in the store: every record whose token is not
/// `t`, in their original order.
pub open spec fn spec_kept(s: Seq<AliasView>, t: Seq<char>) -> Seq<AliasView>
    decreases s.len(),
{
    if s.len() == 0 {
        Seq::empty()
    } else {
        let front = spec_kept(s.drop_last(), t);
        if s.last().token == t {
            front
        } else {
            front.push(s.last())
        }
    }
}

/// What a remove hands back: every record whose token is `t`, in
/// reverse list order (the removal walks the list from the back).
pub open spec fn spec_removed(s: Seq<AliasView>, t: Seq<char>) -> Seq<AliasView>
    decreases s.len(),
{
    if s.len() == 0 {
        Seq::empty()
    } else if s[0].token == t {
        spec_removed(s.drop_first(), t) + seq![s[0]]
    } else {
        spec_removed(s.drop_first(), t)
    }
}

/// The first record in `s` carrying token `t`, if any.
pub open spec fn spec_first_match(s: Seq<AliasView>, t: Seq<char>) -> Option<AliasView>
    decreases s.len(),
{
    if s.len() == 0 {
        None
    } else if s[0].token == t {
        Some(s[0])
    } else {
        spec_first_match(s.drop_first(), t)
    }
}

/// Appending a record adds exactly its token to the tokens present.
pub proof fn lemma_token_in_push(s: Seq<AliasView>, a: AliasView)
    ensures
        forall|t: Seq<char>| token_in(s.push(a), t) <==> token_in(s, t) || a.token == t,
{
    assert forall|t: Seq<char>| token_in(s.push(a), t) implies token_in(s, t) || a.token == t by {
        let i = choose|i: int| 0 <= i < s.push(a).len() && s.push(a)[i].token == t;
        if i < s.len() {
            assert(s[i].token == t);
        }
    }
    assert forall|t: Seq<char>| token_in(s, t) || a.token == t implies token_in(s.push(a), t) by {
        if token_in(s, t) {
            let i = choose|i: int| 0 <= i < s.len() && s[i].token == t;
            assert(s.push(a)[i].token == t);
        } else {
            assert(s.push(a)[s.len() as int].token == t);
        }
    }
}

/// Deduplication keeps exactly the tokens that were present.
pub proof fn lemma_dedup_same_tokens(s: Seq<AliasView>)
    ensures
        forall|t: Seq<char>| token_in(spec_dedup(s), t) <==> token_in(s, t),
    decreases s.len(),
{
    if s.len() == 0 {
    } else {
        let front = s.drop_last();
        let last = s.last();
        lemma_dedup_same_tokens(front);
        lemma_token_in_push(front, last);
        assert(front.push(last) =~= s);
        if token_in(front, last.token) {
            assert(spec_dedup(s) == spec_dedup(front));
            assert forall|t: Seq<char>| token_in(s, t) implies token_in(spec_dedup(s), t) by {
                assert(token_in(front.push(last), t));
                assert(token_in(front, t) || last.token == t);
                assert(token_in(front, t));
                assert(token_in(spec_dedup(front), t));
            }
            assert forall|t: Seq<char>| token_in(spec_dedup(s), t) implies token_in(s, t) by {
                assert(token_in(front, t));
                assert(token_in(front.push(last), t));
            }
        } else {
            assert(spec_dedup(s) == spec_dedup(front).push(last));
            lemma_token_in_push(spec_dedup(front), last);
            assert forall|t: Seq<char>| token_in(spec_dedup(s), t) <==> token_in(s, t) by {
                assert(token_in(spec_dedup(s), t) <==> token_in(spec_dedup(front), t)
                    || last.token == t);
                assert(token_in(spec_dedup(front), t) <==> token_in(front, t));
                assert(token_in(s, t) <==> token_in(front, t) || last.token == t);
            }
        }
    }
}

/// Deduplication leaves no two records with the same token.
pub proof fn lemma_dedup_unique(s: Seq<AliasView>)
    ensures
        unique_tokens(spec_dedup(s)),
    decreases s.len(),
{
    if s.len() == 0 {
    } else {
        let front = s.drop_last();
        let last = s.last();
        lemma_dedup_unique(front);
        lemma_dedup_same_tokens(front);
        if !token_in(front, last.token) {
            let d = spec_dedup(front).push(last);
            assert forall|i: int, j: int| 0 <= i < j < d.len() implies d[i].token != d[j].token by {
                if j < d.len() - 1 {
                    assert(spec_dedup(front)[i].token != spec_dedup(front)[j].token);
                } else {
                    assert(d[i] == spec_dedup(front)[i]);
                    assert(token_in(spec_dedup(front), d[i].token));
                }
            }
        }
    }
}

/// A list whose tokens are already unique passes deduplication
/// unchanged.
pub proof fn lemma_dedup_of_unique(s: Seq<AliasView>)
    requires
        unique_tokens(s),
    ensures
        spec_dedup(s) == s,
    decreases s.len(),
{
    if s.len() == 0 {
        assert(spec_dedup(s) =~= s);
    } else {
        let front = s.drop_last();
        let last = s.last();
        assert(unique_tokens(front));
        lemma_dedup_of_unique(front);
        if token_in(front, last.token) {
            let i = choose|i: int| 0 <= i < front.len() && front[i].token == last.token;
            assert(s[i].token == s[s.len() - 1].token);
            assert(false);
        }
        assert(spec_dedup(s) == front.push(last));
        assert(front.push(last) =~= s);
    }
}

/// The store: the list of aliases as loaded from the backing file.
/// Its view is the sequence of record models, in list order.
pub struct AliasStore {
    aliases: Vec<Alias>,
}

impl View for AliasStore {
    type V = Seq<AliasView>;

    closed spec fn view(&self) -> Seq<AliasView> {
        views_of(self.aliases@)
    }
}

/// Decides whether some record in the list carries the given token.
pub fn contains_token(aliases: &Vec<Alias>, t: &String) -> (r: bool)
    ensures
        r == token_in(views_of(aliases@), t@),
{
    let ghost s = views_of(aliases@);
    let n = aliases.len();
    let mut i: usize = 0;
    while i < n
        invariant
            i <= n,
            n == aliases@.len(),
            s == views_of(aliases@),
            forall|j: int| 0 <= j < i ==> s[j].token != t@,
        decreases n - i,
    {
        if aliases[i].token == *t {
            assert(s[i as int].token == t@);
            return true;
        }
        i = i + 1;
    }
    false
}

/// Deduplicates a list by token, keeping the first record per token.
fn dedup_keep_first(aliases: &Vec<Alias>) -> (r: Vec<Alias>)
    ensures
        views_of(r@) == spec_dedup(views_of(aliases@)),
{
    let ghost s = views_of(aliases@);
    let n = aliases.len();
    let mut r: Vec<Alias> = Vec::new();
    let mut i: usize = 0;
    assert(views_of(r@) =~= spec_dedup(s.take(0)));
    while i < n
        invariant
            i <= n,
            n == aliases@.len(),
            s == views_of(aliases@),
            views_of(r@) == spec_dedup(s.take(i as int)),
        decreases n - i,
    {
        proof {
            lemma_dedup_same_tokens(s.take(i as int));
        }
        let keep = !contains_token(&r, &aliases[i].token);
        let ghost r0 = views_of(r@);
        if keep {
            r.push(aliases[i].clone());
            assert(views_of(r@) =~= r0.push(s[i as int]));
        }
        proof {
            assert(s.take(i + 1).drop_last() =~= s.take(i as int));
            assert(s.take(i + 1).last() == s[i as int]);
        }
        i = i + 1;
    }
    assert(s.take(n as int) =~= s);
    r
}

impl AliasStore {
    /// An empty store: what loading an absent or empty file yields.
    pub fn new() -> (s: AliasStore)
        ensures
            s@ == Seq::<AliasView>::empty(),
    {
        let aliases: Vec<Alias> = Vec::new();
        assert(views_of(aliases@) =~= Seq::<AliasView>::empty());
        AliasStore { aliases }
    }

    /// Wraps a list freshly deserialized from the backing file.  The
    /// list is taken as it stands: legacy duplicate tokens, written
    /// before uniqueness was enforced, stay until the next create.
    pub fn from_loaded(aliases: Vec<Alias>) -> (s: AliasStore)
        ensures
            s@ == views_of(aliases@),
    {
        AliasStore { aliases }
    }

    /// The full current list, in order: the list operation.
    pub fn list(&self) -> (r: &Vec<Alias>)
        ensures
            views_of(r@) == self@,
    {
        &self.aliases
    }

    /// The number of records held.
    pub fn len(&self) -> (n: usize)
        ensures
            n == self@.len(),
    {
        self.aliases.len()
    }

    /// The create operation.  The token is the explicit one when
    /// given, otherwise a fresh random one; a token holding `?` is
    /// refused.  The new record is appended and the whole list then
    /// deduplicated by token keeping first occurrences, so on a
    /// collision with an explicit token the pre-existing record wins;
    /// the returned record is nevertheless the one just built, as
    /// supplied.
    pub fn create_alias(
        &mut self,
        target: String,
        explicit: Option<String>,
        interstitial: Option<bool>,
    ) -> (r: Result<Alias, CreateError>)
        ensures
            match explicit {
                Some(t) => {
                    if token_valid(t@) {
                        match r {
                            Ok(alias) => {
                                &&& alias@ == (AliasView { token: t@, target: target@, interstitial })
                                &&& final(self)@ == spec_create(old(self)@, alias@)
                            },
                            Err(_) => false,
                        }
                    } else {
                        &&& r == Err::<Alias, CreateError>(CreateError::InvalidToken)
                        &&& *final(self) == *old(self)
                    }
                },
                None => match r {
                    Ok(alias) => {
                        &&& alias@.target == target@
                        &&& alias@.interstitial == interstitial
                        &&& generated_token_ok(alias@.token, old(self)@)
                        &&& final(self)@ == spec_create(old(self)@, alias@)
                    },
                    Err(e) => {
                        &&& e == CreateError::GenerationFailed
                        &&& *final(self) == *old(self)
                    },
                },
            },
    {
        let token: String = match explicit {
            Some(t) => t,
            None => {
                match generate_token(&self.aliases) {
                    Some(t) => {
                        proof {
                            lemma_alphanumeric_token_valid(t@);
                        }
                        t
                    },
                    None => {
                        return Err(CreateError::GenerationFailed);
                    },
                }
            },
        };
        if !check_token(token.as_str()) {
            return Err(CreateError::InvalidToken);
        }
        let alias = Alias { token, target, interstitial };
        let ghost before = views_of(self.aliases@);
        self.aliases.push(alias.clone());
        assert(views_of(self.aliases@) =~= before.push(alias@));
        let deduped = dedup_keep_first(&self.aliases);
        self.aliases = deduped;
        Ok(alias)
    }

    /// The remove operation: takes out every record carrying `token`
    /// (walking the list from the back, as legacy duplicate tokens may
    /// match more than once) and hands the removed records back, the
    /// rest staying in order.
    pub fn remove_alias(&mut self, token: &String) -> (removed: Vec<Alias>)
        ensures
            final(self)@ == spec_kept(old(self)@, token@),
            views_of(removed@) == spec_removed(old(self)@, token@),
    {
        let removed = removed_matching(&self.aliases, token);
        let kept = kept_without(&self.aliases, token);
        self.aliases = kept;
        removed
    }
}

/// Collects, in order, the records whose token is not `token`.
fn kept_without(aliases: &Vec<Alias>, token: &String) -> (r: Vec<Alias>)
    ensures
        views_of(r@) == spec_kept(views_of(aliases@), token@),
{
    let ghost s = views_of(aliases@);
    let n = aliases.len();
    let mut r: Vec<Alias> = Vec::new();
    let mut i: usize = 0;
    assert(views_of(r@) =~= spec_kept(s.take(0), token@));
    while i < n
        invariant
            i <= n,
            n == aliases@.len(),
            s == views_of(aliases@),
            views_of(r@) == spec_kept(s.take(i as int), token@),
        decreases n - i,
    {
        let ghost r0 = views_of(r@);
        if !(aliases[i].token == *token) {
            r.push(aliases[i].clone());
            assert(views_of(r@) =~= r0.push(s[i as int]));
        }
        proof {
            assert(s.take(i + 1).drop_last() =~= s.take(i as int));
            assert(s.take(i + 1).last() == s[i as int]);
        }
        i = i + 1;
    }
    assert(s.take(n as int) =~= s);
    r
}

/// Collects the records whose token is `token`, walking from the back
/// of the list, so in reverse list order.
fn removed_matching(aliases: &Vec<Alias>, token: &String) -> (r: Vec<Alias>)
    ensures
        views_of(r@) == spec_removed(views_of(aliases@), token@),
{
    let ghost s = views_of(aliases@);
    let n = aliases.len();
    let mut r: Vec<Alias> = Vec::new();
    let mut i: usize = n;
    assert(s.skip(n as int) =~= Seq::<AliasView>::empty());
    assert(views_of(r@) =~= spec_removed(s.skip(n as int), token@));
    while i > 0
        invariant
            i <= n,
            n == aliases@.len(),
            s == views_of(aliases@),
            views_of(r@) == spec_removed(s.skip(i as int), token@),
        decreases i,
    {
        i = i - 1;
        let ghost r0 = views_of(r@);
        proof {
            assert(s.skip(i as int).drop_first() =~= s.skip(i as int + 1));
            assert(s.skip(i as int)[0] == s[i as int]);
        }
        if aliases[i].token == *token {
            r.push(aliases[i].clone());
            assert(views_of(r@) =~= r0.push(s[i as int]));
            assert(r0.push(s[i as int]) =~= spec_removed(s.skip(i as int + 1), token@)
                + seq![s[i as int]]);
        }
    }
    assert(s.skip(0) =~= s);
    r
}

} // verus!
