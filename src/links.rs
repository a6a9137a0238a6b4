//! Links recovered from the names of files saved from web pages: a name such
//! as `https:_example.org_page.md` stands for `https://example.org/page`.
use vstd::prelude::*;
use crate::text::{chars_of, string_of};

verus! {

/// `s` with every occurrence of `pat`, found left to right without overlap,
/// replaced by `rep`.
pub open spec fn replace_all(s: Seq<char>, pat: Seq<char>, rep: Seq<char>) -> Seq<char>
    decreases s.len(),
{
    if pat.len() == 0 || s.len() < pat.len() {
        s
    } else if s.take(pat.len() as int) == pat {
        rep + replace_all(s.skip(pat.len() as int), pat, rep)
    } else {
        seq![s[0]] + replace_all(s.skip(1), pat, rep)
    }
}

/// The link that a saved file's name stands for, or "None" where the name does
/// not start with "https:".
pub open spec fn link_of(name: Seq<char>) -> Seq<char> {
    if name.len() >= 6 && name.take(6) == "https:"@ {
        replace_all(
            replace_all(replace_all(replace_all(name, ":_"@, "://"@), "_"@, "/"@), ".md_translated"@, Seq::empty()),
            ".md"@,
            Seq::empty(),
        )
    } else {
        "None"@
    }
}

/// Whether `pat` occurs in `s` at position `i`.
fn occurs_at(s: &Vec<char>, i: usize, pat: &Vec<char>) -> (r: bool)
    requires
        i + pat@.len() <= s@.len(),
    ensures
        r == (s@.subrange(i as int, i + pat@.len()) == pat@),
{
    let mut k: usize = 0;
    while k < pat.len()
        invariant
            k <= pat@.len(),
            i + pat@.len() <= s@.len(),
            s@.len() == s.len(),
            forall|j: int| 0 <= j < k ==> s@[i + j] == pat@[j],
        decreases pat.len() - k,
    {
        assert(i + k < s@.len());
        if s[i + k] != pat[k] {
            assert(s@.subrange(i as int, i + pat@.len())[k as int] != pat@[k as int]);
            return false;
        }
        k = k + 1;
    }
    assert(s@.subrange(i as int, i + pat@.len()) =~= pat@);
    true
}

/// `s` with every occurrence of `pat` replaced by `rep`, left to right.
pub fn replace_chars(s: &Vec<char>, pat: &Vec<char>, rep: &Vec<char>) -> (r: Vec<char>)
    requires
        pat@.len() > 0,
    ensures
        r@ == replace_all(s@, pat@, rep@),
{
    let n = s.len();
    let mut out: Vec<char> = Vec::new();
    let mut i: usize = 0;
    assert(s@.skip(0) =~= s@);
    while i < n
        invariant
            i <= n == s@.len(),
            pat@.len() > 0,
            replace_all(s@, pat@, rep@) == out@ + replace_all(s@.skip(i as int), pat@, rep@),
        decreases n - i,
    {
        let ghost rest = s@.skip(i as int);
        if pat.len() <= n - i && occurs_at(s, i, pat) {
            proof {
                assert(rest.take(pat@.len() as int) =~= s@.subrange(i as int, i + pat@.len()));
                assert(rest.skip(pat@.len() as int) =~= s@.skip(i + pat@.len()));
            }
            let ghost o0 = out@;
            let mut k: usize = 0;
            while k < rep.len()
                invariant
                    k <= rep@.len(),
                    out@ == o0 + rep@.take(k as int),
                decreases rep.len() - k,
            {
                out.push(rep[k]);
                assert(out@ =~= o0 + rep@.take(k + 1));
                k = k + 1;
            }
            assert(rep@.take(k as int) =~= rep@);
            assert(o0 + (rep@ + replace_all(s@.skip(i + pat@.len()), pat@, rep@)) =~= out@
                + replace_all(s@.skip(i + pat@.len()), pat@, rep@));
            i = i + pat.len();
        } else {
            proof {
                if rest.len() >= pat@.len() {
                    assert(rest.take(pat@.len() as int) =~= s@.subrange(i as int, i + pat@.len()));
                }
                assert(rest.skip(1) =~= s@.skip(i + 1));
            }
            let ghost o0 = out@;
            out.push(s[i]);
            assert(o0 + (seq![s@[i as int]] + replace_all(s@.skip(i + 1), pat@, rep@)) =~= out@
                + replace_all(s@.skip(i + 1), pat@, rep@));
            i = i + 1;
        }
    }
    assert(replace_all(s@.skip(n as int), pat@, rep@) =~= Seq::<char>::empty()) by {
        assert(s@.skip(n as int).len() == 0);
    }
    assert(out@ + Seq::<char>::empty() =~= out@);
    out
}

/// The link that a saved file's name stands for. The replacements run in this
/// order: ":_" by "://", every '_' by '/', ".md_translated" by nothing, ".md" by
/// nothing. Once the underscores are gone ".md_translated" no longer occurs, so
/// a name with that ending keeps "/translated". A name that does not start with
/// "https:" gives "None".
pub fn to_link(name: String) -> (r: String)
    ensures
        r@ == link_of(name@),
{
    let s = chars_of(name.as_str());
    let prefix = chars_of("https:");
    proof {
        reveal_strlit("https:");
    }
    if s.len() < 6 || !occurs_at(&s, 0, &prefix) {
        proof {
            if s@.len() >= 6 {
                assert(s@.take(6) =~= s@.subrange(0, 6));
            }
        }
        return String::from_str("None");
    }
    assert(s@.take(6) =~= s@.subrange(0, 6));
    proof {
        reveal_strlit(":_");
        reveal_strlit("_");
        reveal_strlit(".md_translated");
        reveal_strlit(".md");
    }
    let empty: Vec<char> = Vec::new();
    let a = replace_chars(&s, &chars_of(":_"), &chars_of("://"));
    let b = replace_chars(&a, &chars_of("_"), &chars_of("/"));
    let c = replace_chars(&b, &chars_of(".md_translated"), &empty);
    let d = replace_chars(&c, &chars_of(".md"), &empty);
    string_of(&d)
}

} // verus!
