//! The alias record: a token-to-URL mapping, the unit of persistence.

use vstd::prelude::*;
use vstd::string::StrSliceExecFns;

verus! {

/// Mathematical model of an [`Alias`]: the two strings as character
/// sequences plus the optional interstitial flag.
#[verifier::ext_equal]
pub struct AliasView {
    pub token: Seq<char>,
    pub target: Seq<char>,
    pub interstitial: Option<bool>,
}

/// A single stored alias: visiting `token` leads to `target`.  When
/// `interstitial` is `Some(true)`, an interstitial page is served in
/// place of the immediate redirect.  The flag is `None` when it was
/// never set, so a serializer can skip it (sparse serialization).
#[derive(Debug)]
pub struct Alias {
    pub token: String,
    pub target: String,
    pub interstitial: Option<bool>,
}

impl View for Alias {
    type V = AliasView;

    open spec fn view(&self) -> AliasView {
        AliasView { token: self.token@, target: self.target@, interstitial: self.interstitial }
    }
}

impl Clone for Alias {
    fn clone(&self) -> (r: Self)
        ensures
            r@ == self@,
    {
        Alias {
            token: self.token.clone(),
            target: self.target.clone(),
            interstitial: self.interstitial,
        }
    }
}

impl Alias {
    /// Builds the record that a create operation stores.
    pub fn new(token: String, target: String, interstitial: Option<bool>) -> (r: Alias)
        ensures
            r@ == (AliasView { token: token@, target: target@, interstitial }),
    {
        Alias { token, target, interstitial }
    }
}

/// The models of a sequence of records.
pub open spec fn views_of(s: Seq<Alias>) -> Seq<AliasView> {
    s.map_values(|a: Alias| a@)
}

/// True when `s` spells the word `true` in any ASCII case, the only
/// spelling that switches the interstitial flag on.
pub open spec fn is_true_literal(s: Seq<char>) -> bool {
    &&& s.len() == 4
    &&& (s[0] == 't' || s[0] == 'T')
    &&& (s[1] == 'r' || s[1] == 'R')
    &&& (s[2] == 'u' || s[2] == 'U')
    &&& (s[3] == 'e' || s[3] == 'E')
}

/// Maps the raw request field to the stored flag: `Some(true)` exactly
/// when the field is present and spells `true` (ASCII
/// case-insensitive); any other value, and absence, mean unset.
pub fn parse_interstitial_flag(value: Option<&String>) -> (r: Option<bool>)
    ensures
        r == (match value {
            Some(s) => if is_true_literal(s@) {
                Some(true)
            } else {
                None::<bool>
            },
            None => None::<bool>,
        }),
{
    match value {
        None => None,
        Some(s) => {
            let st = s.as_str();
            if st.unicode_len() != 4 {
                return None;
            }
            let c0 = st.get_char(0);
            let c1 = st.get_char(1);
            let c2 = st.get_char(2);
            let c3 = st.get_char(3);
            if (c0 == 't' || c0 == 'T') && (c1 == 'r' || c1 == 'R') && (c2 == 'u' || c2 == 'U')
                && (c3 == 'e' || c3 == 'E') {
                Some(true)
            } else {
                None
            }
        },
    }
}

} // verus!
