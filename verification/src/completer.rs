//! Completion of binary names: out of the names found on the search
//! path, the candidates are those that start with what was typed.

use vstd::prelude::*;

verus! {

/// Whether `s` starts with `p`.
pub open spec fn spec_starts_with(s: Seq<char>, p: Seq<char>) -> bool {
    p.len() <= s.len() && s.subrange(0, p.len() as int) == p
}

/// Character-by-character prefix test, proved against the views.
pub fn str_starts_with(s: &str, prefix: &str) -> (r: bool)
    ensures
        r == spec_starts_with(s@, prefix@),
{
    let plen = prefix.unicode_len();
    let slen = s.unicode_len();
    if plen > slen {
        return false;
    }
    let mut i: usize = 0;
    while i < plen
        invariant
            plen == prefix@.len(),
            slen == s@.len(),
            plen <= slen,
            i <= plen,
            forall|j: int| 0 <= j < i ==> s@[j] == prefix@[j],
        decreases plen - i,
    {
        if s.get_char(i) != prefix.get_char(i) {
            proof {
                assert(s@.subrange(0, plen as int)[i as int] == s@[i as int]);
            }
            return false;
        }
        i = i + 1;
    }
    proof {
        assert(s@.subrange(0, plen as int) =~= prefix@);
    }
    true
}

/// The candidate names, in order, that start with prefix `p`.
pub open spec fn spec_prefix_filter(names: Seq<Seq<char>>, p: Seq<char>) -> Seq<Seq<char>> {
    names.filter(|n: Seq<char>| spec_starts_with(n, p))
}

/// Completes command names: its candidates are the binaries on the
/// search path whose names start with the typed line.
pub struct BinaryCompleter;

impl BinaryCompleter {
    /// Keeps, in order, the names that start with the typed line.  The
    /// caller gathers the names from the directories of the search path.
    pub fn filter_candidates(names: &Vec<String>, line: &str) -> (r: Vec<String>)
        ensures
            r.deep_view() == spec_prefix_filter(names.deep_view(), line@),
    {
        let ghost nv: Seq<Seq<char>> = names.deep_view();
        let mut r: Vec<String> = Vec::new();
        let n = names.len();
        let mut i: usize = 0;
        proof {
            reveal(Seq::filter);
            assert(r.deep_view() =~= Seq::<Seq<char>>::empty());
            assert(nv.subrange(0, 0) =~= Seq::<Seq<char>>::empty());
        }
        while i < n
            invariant
                n == names.len(),
                nv == names.deep_view(),
                nv.len() == n,
                i <= n,
                r.deep_view() == spec_prefix_filter(nv.subrange(0, i as int), line@),
            decreases n - i,
        {
            proof {
                reveal(Seq::filter);
                assert(nv.subrange(0, i + 1).drop_last() =~= nv.subrange(0, i as int));
                assert(nv.subrange(0, i + 1).last() == nv[i as int]);
                assert(nv[i as int] == names@[i as int]@);
            }
            let ghost old_r: Seq<Seq<char>> = r.deep_view();
            if str_starts_with(names[i].as_str(), line) {
                r.push(names[i].clone());
                proof {
                    assert(r.deep_view() =~= old_r.push(nv[i as int]));
                }
            }
            i = i + 1;
        }
        proof {
            assert(nv.subrange(0, n as int) =~= nv);
        }
        r
    }
}

} // verus!
