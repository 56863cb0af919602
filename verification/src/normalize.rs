//! Domain normalization: the ranking endpoint rejects domains with a
//! trailing `/`, so every input is stripped of all trailing slashes before
//! it is placed in a request.

use vstd::prelude::*;

verus! {

/// The sequence `s` with every trailing `/` removed.
pub open spec fn strip_trailing_slashes(s: Seq<char>) -> Seq<char>
    decreases s.len(),
{
    if s.len() > 0 && s.last() == '/' {
        strip_trailing_slashes(s.drop_last())
    } else {
        s
    }
}

/// What stripping leaves behind: a prefix of the input, the dropped suffix
/// consists of `/` alone, and the result no longer ends in `/`.
pub proof fn lemma_strip_trailing_slashes_characterized(s: Seq<char>)
    ensures
        strip_trailing_slashes(s).len() <= s.len(),
        strip_trailing_slashes(s) == s.subrange(0, strip_trailing_slashes(s).len() as int),
        forall|j: int|
            strip_trailing_slashes(s).len() <= j < s.len() ==> #[trigger] s[j] == '/',
        strip_trailing_slashes(s).len() == 0 || strip_trailing_slashes(s).last() != '/',
    decreases s.len(),
{
    if s.len() > 0 && s.last() == '/' {
        lemma_strip_trailing_slashes_characterized(s.drop_last());
        assert(s.drop_last() == s.subrange(0, s.len() - 1));
        assert(strip_trailing_slashes(s) == s.subrange(
            0,
            strip_trailing_slashes(s).len() as int,
        )) by {
            assert(s.drop_last().subrange(0, strip_trailing_slashes(s).len() as int)
                =~= s.subrange(0, strip_trailing_slashes(s).len() as int));
        }
        assert forall|j: int|
            strip_trailing_slashes(s).len() <= j < s.len() implies #[trigger] s[j]
            == '/' by {
            if j < s.len() - 1 {
                assert(s.drop_last()[j] == '/');
            }
        }
    } else {
        assert(s.subrange(0, s.len() as int) =~= s);
    }
}

/// Normalizing is idempotent: a second pass changes nothing.
pub proof fn lemma_strip_trailing_slashes_idempotent(s: Seq<char>)
    ensures
        strip_trailing_slashes(strip_trailing_slashes(s)) == strip_trailing_slashes(s),
{
    lemma_strip_trailing_slashes_characterized(s);
}

/// Removes every trailing `/` from a domain string, as the ranking
/// endpoint expects.
pub fn remove_trailing_slash(s: &str) -> (r: String)
    ensures
        r@ == strip_trailing_slashes(s@),
{
    let len: usize = s.unicode_len();
    let mut cut: usize = len;
    proof {
        assert(s@.subrange(0, len as int) =~= s@);
    }
    while cut > 0 && s.get_char(cut - 1) == '/'
        invariant
            cut <= len,
            len == s@.len(),
            strip_trailing_slashes(s@) == strip_trailing_slashes(s@.subrange(0, cut as int)),
        decreases cut,
    {
        proof {
            let prefix = s@.subrange(0, cut as int);
            assert(prefix.last() == s@[cut - 1]);
            assert(prefix.drop_last() =~= s@.subrange(0, cut - 1));
        }
        cut = cut - 1;
    }
    proof {
        let prefix = s@.subrange(0, cut as int);
        if cut > 0 {
            assert(prefix.last() == s@[cut - 1]);
        }
        assert(strip_trailing_slashes(prefix) == prefix);
        if cut == len {
            assert(s@.subrange(0, len as int) =~= s@);
        }
    }
    let kept = s.substring_char(0, cut);
    String::from_str(kept)
}

} // verus!
