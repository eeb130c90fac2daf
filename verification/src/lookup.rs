//! Resolving a visited token: percent-decoding and the linear scan
//! behind the redirect route.

use vstd::prelude::*;

use crate::alias::Alias;
use crate::alias::AliasView;
use crate::alias::views_of;
use crate::store::AliasStore;
use crate::store::spec_first_match;

verus! {

/// The characters that percent-decoding a token yields.  Decoding is a
/// function of the input characters alone, so the name stands for its
/// result; the only fact taken about it is that an input free of `%`
/// comes back unchanged.
pub uninterp spec fn percent_decoded(s: Seq<char>) -> Seq<char>;

/// Relies on url_escape::decode: it rewrites `%`-escapes (two hex
/// digits after a `%`) to the bytes they denote and passes every other
/// byte through, so its result depends on the input characters alone
/// and an input without `%` comes back as it was.
#[verifier::external_body]
fn percent_decode(s: &str) -> (r: String)
    ensures
        r@ == percent_decoded(s@),
        !s@.contains('%') ==> r@ == s@,
{
    url_escape::decode(s).into_owned()
}

/// First record carrying token `t`, scanning the list in order.
fn first_match(aliases: &Vec<Alias>, t: &String) -> (r: Option<Alias>)
    ensures
        match r {
            Some(a) => spec_first_match(views_of(aliases@), t@) == Some(a@),
            None => spec_first_match(views_of(aliases@), t@) is None,
        },
{
    let ghost s = views_of(aliases@);
    let n = aliases.len();
    let mut i: usize = 0;
    assert(s.skip(0) =~= s);
    while i < n
        invariant
            i <= n,
            n == aliases@.len(),
            s == views_of(aliases@),
            spec_first_match(s, t@) == spec_first_match(s.skip(i as int), t@),
        decreases n - i,
    {
        proof {
            assert(s.skip(i as int).drop_first() =~= s.skip(i as int + 1));
            assert(s.skip(i as int)[0] == s[i as int]);
        }
        if aliases[i].token == *t {
            return Some(aliases[i].clone());
        }
        i = i + 1;
    }
    assert(s.skip(n as int) =~= Seq::<AliasView>::empty());
    None
}

/// What the redirect route should do for a visited token.
#[derive(Debug)]
pub enum RedirectAction {
    /// Serve the interstitial page, then lead to this target.
    Interstitial(String),
    /// Redirect at once to this target.
    Redirect(String),
    /// No record matched: fall back to the not-found page.
    NotFound,
}

impl AliasStore {
    /// The first record carrying exactly the given token, in list
    /// order; `None` when no record carries it.
    pub fn lookup(&self, token: &String) -> (r: Option<Alias>)
        ensures
            match r {
                Some(a) => spec_first_match(self@, token@) == Some(a@),
                None => spec_first_match(self@, token@) is None,
            },
    {
        first_match(self.list(), token)
    }

    /// The lookup behind the redirect route: percent-decodes the
    /// visited token and returns the first record carrying it.
    pub fn lookup_for_redirect(&self, raw_token: &str) -> (r: Option<Alias>)
        ensures
            match r {
                Some(a) => spec_first_match(self@, percent_decoded(raw_token@)) == Some(a@),
                None => spec_first_match(self@, percent_decoded(raw_token@)) is None,
            },
            !raw_token@.contains('%') ==> match r {
                Some(a) => spec_first_match(self@, raw_token@) == Some(a@),
                None => spec_first_match(self@, raw_token@) is None,
            },
    {
        let decoded = percent_decode(raw_token);
        self.lookup(&decoded)
    }

    /// Decides the redirect route's response: the interstitial page
    /// when the matched record asks for one, an immediate redirect
    /// otherwise, and the not-found fallback when nothing matches.
    pub fn redirect_decision(&self, raw_token: &str) -> (r: RedirectAction)
        ensures
            ({
                let m = spec_first_match(self@, percent_decoded(raw_token@));
                match r {
                    RedirectAction::Interstitial(t) => {
                        &&& m is Some
                        &&& m->0.interstitial == Some(true)
                        &&& t@ == m->0.target
                    },
                    RedirectAction::Redirect(t) => {
                        &&& m is Some
                        &&& m->0.interstitial != Some(true)
                        &&& t@ == m->0.target
                    },
                    RedirectAction::NotFound => m is None,
                }
            }),
    {
        match self.lookup_for_redirect(raw_token) {
            None => RedirectAction::NotFound,
            Some(alias) => {
                match alias.interstitial {
                    Some(true) => RedirectAction::Interstitial(alias.target),
                    _ => RedirectAction::Redirect(alias.target),
                }
            },
        }
    }
}

} // verus!
