//! Rendering the interstitial page: substituting the target URL for
//! the placeholder in the page template.

use vstd::prelude::*;
use vstd::string::StrSliceExecFns;

verus! {

/// `t` with every occurrence of `marker` replaced by `url`, scanning
/// left to right without overlap.  A `marker` that is empty or longer
/// than the rest of the text replaces nothing.
pub open spec fn spec_substitute(t: Seq<char>, marker: Seq<char>, url: Seq<char>) -> Seq<char>
    decreases t.len(),
{
    if marker.len() == 0 || t.len() < marker.len() {
        t
    } else if t.take(marker.len() as int) == marker {
        url + spec_substitute(t.skip(marker.len() as int), marker, url)
    } else {
        seq![t[0]] + spec_substitute(t.drop_first(), marker, url)
    }
}

/// Decides whether `marker` stands in `s` at position `i`.
fn matches_at(s: &str, i: usize, marker: &str) -> (r: bool)
    requires
        i + marker@.len() <= s@.len(),
    ensures
        r == (s@.subrange(i as int, i + marker@.len()) == marker@),
{
    let slen = s.unicode_len();
    let mlen = marker.unicode_len();
    let mut j: usize = 0;
    while j < mlen
        invariant
            j <= mlen,
            mlen == marker@.len(),
            slen == s@.len(),
            i + mlen <= slen,
            forall|k: int| 0 <= k < j ==> s@[i + k] == marker@[k],
        decreases mlen - j,
    {
        if s.get_char(i + j) != marker.get_char(j) {
            assert(s@.subrange(i as int, i + marker@.len())[j as int] == s@[i + j]);
            return false;
        }
        j = j + 1;
    }
    assert(s@.subrange(i as int, i + marker@.len()) =~= marker@);
    true
}

/// Builds the interstitial page for a target: the template text with
/// every `#REDIRECT#` placeholder replaced by the target URL.
pub fn render_interstitial(template: &str, target: &str) -> (r: String)
    ensures
        r@ == spec_substitute(template@, "#REDIRECT#"@, target@),
{
    proof {
        reveal_strlit("#REDIRECT#");
    }
    let marker = "#REDIRECT#";
    let mlen = marker.unicode_len();
    let tlen = template.unicode_len();
    let mut out = String::new();
    let mut i: usize = 0;
    proof {
        assert(template@.skip(0) =~= template@);
        assert(out@ + spec_substitute(template@, marker@, target@) =~= spec_substitute(
            template@,
            marker@,
            target@,
        ));
    }
    while i < tlen
        invariant
            i <= tlen,
            tlen == template@.len(),
            mlen == marker@.len(),
            marker@ == "#REDIRECT#"@,
            mlen == 10,
            out@ + spec_substitute(template@.skip(i as int), marker@, target@) == spec_substitute(
                template@,
                marker@,
                target@,
            ),
        decreases tlen - i,
    {
        let ghost rem = template@.skip(i as int);
        let ghost out0 = out@;
        proof {
            assert(rem.len() == tlen - i);
            assert(rem[0] == template@[i as int]);
            assert(rem.drop_first() =~= template@.skip(i as int + 1));
        }
        if mlen <= tlen && i <= tlen - mlen && matches_at(template, i, marker) {
            proof {
                assert(rem.take(mlen as int) =~= template@.subrange(i as int, i + marker@.len()));
                assert(rem.skip(mlen as int) =~= template@.skip(i as int + mlen as int));
                assert(spec_substitute(rem, marker@, target@) == target@ + spec_substitute(
                    template@.skip(i as int + mlen as int),
                    marker@,
                    target@,
                ));
            }
            out.append(target);
            i = i + mlen;
            proof {
                assert(out@ + spec_substitute(template@.skip(i as int), marker@, target@)
                    =~= out0 + (target@ + spec_substitute(
                    template@.skip(i as int),
                    marker@,
                    target@,
                )));
            }
        } else {
            proof {
                if rem.len() >= mlen {
                    assert(rem.take(mlen as int) =~= template@.subrange(
                        i as int,
                        i + marker@.len(),
                    ));
                    assert(spec_substitute(rem, marker@, target@) == seq![rem[0]]
                        + spec_substitute(rem.drop_first(), marker@, target@));
                } else {
                    assert(spec_substitute(rem, marker@, target@) == rem);
                    assert(rem =~= seq![rem[0]] + rem.drop_first());
                    assert(spec_substitute(rem.drop_first(), marker@, target@)
                        == rem.drop_first());
                }
            }
            let piece = template.substring_char(i, i + 1);
            proof {
                assert(piece@ =~= seq![template@[i as int]]);
            }
            out.append(piece);
            i = i + 1;
            proof {
                assert(out@ + spec_substitute(template@.skip(i as int), marker@, target@)
                    =~= out0 + (seq![rem[0]] + spec_substitute(
                    template@.skip(i as int),
                    marker@,
                    target@,
                )));
            }
        }
    }
    proof {
        assert(template@.skip(tlen as int) =~= Seq::<char>::empty());
        assert(spec_substitute(Seq::<char>::empty(), marker@, target@)
            == Seq::<char>::empty());
        assert(out@ + Seq::<char>::empty() =~= out@);
    }
    out
}

} // verus!
