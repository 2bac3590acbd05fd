//! Prompt display helpers: abbreviating the working directory and picking
//! the prompt symbol.

use vstd::prelude::*;

use crate::strutil::str_eq;
use vstd::string::StringSliceAdditionalSpecFns;

verus! {

/// Splitting `s` on `/` into components, keeping empty ones, with `cur`
/// the partial component read so far.  A path always has at least one
/// component; an empty path has one empty component.
pub open spec fn spec_split_slash_rest(s: Seq<char>, cur: Seq<char>) -> Seq<Seq<char>>
    decreases s.len(),
{
    if s.len() == 0 {
        seq![cur]
    } else if s[0] == '/' {
        seq![cur] + spec_split_slash_rest(s.drop_first(), Seq::empty())
    } else {
        spec_split_slash_rest(s.drop_first(), cur.push(s[0]))
    }
}

/// The `/`-separated components of a path.
pub open spec fn spec_split_slash(s: Seq<char>) -> Seq<Seq<char>> {
    spec_split_slash_rest(s, Seq::empty())
}

proof fn lemma_split_slash_rest_len(s: Seq<char>, cur: Seq<char>)
    ensures
        spec_split_slash_rest(s, cur).len() >= 1,
    decreases s.len(),
{
    if s.len() > 0 {
        if s[0] == '/' {
            lemma_split_slash_rest_len(s.drop_first(), Seq::empty());
        } else {
            lemma_split_slash_rest_len(s.drop_first(), cur.push(s[0]));
        }
    }
}

proof fn lemma_skip_char(s: Seq<char>, i: int)
    requires
        0 <= i < s.len(),
    ensures
        s.skip(i).len() == s.len() - i,
        s.skip(i)[0] == s[i],
        s.skip(i).drop_first() == s.skip(i + 1),
{
    assert(s.skip(i).drop_first() =~= s.skip(i + 1));
}

/// Splits `path` on `/` into its components, empty ones included.
pub fn split_slash(path: &str) -> (comps: Vec<String>)
    ensures
        comps.deep_view() == spec_split_slash(path@),
        comps.len() >= 1,
{
    let n = path.unicode_len();
    let mut comps: Vec<String> = Vec::new();
    let mut i: usize = 0;
    let mut start: usize = 0;
    proof {
        assert(comps.deep_view() =~= Seq::<Seq<char>>::empty());
        assert(path@.skip(0) =~= path@);
        assert(path@.subrange(0, 0) =~= Seq::<char>::empty());
        assert(Seq::<Seq<char>>::empty() + spec_split_slash(path@) =~= spec_split_slash(path@));
    }
    while i < n
        invariant
            n == path@.len(),
            start <= i <= n,
            comps.deep_view() + spec_split_slash_rest(
                path@.skip(i as int),
                path@.subrange(start as int, i as int),
            ) == spec_split_slash(path@),
        decreases n - i,
    {
        let ghost cur: Seq<char> = path@.subrange(start as int, i as int);
        let ghost old_comps: Seq<Seq<char>> = comps.deep_view();
        proof {
            lemma_skip_char(path@, i as int);
        }
        let c = path.get_char(i);
        if c == '/' {
            let comp = path.substring_char(start, i);
            comps.push(String::from_str(comp));
            start = i + 1;
            proof {
                assert(comps.deep_view() =~= old_comps.push(cur));
                assert(old_comps.push(cur) + spec_split_slash_rest(
                    path@.skip(i + 1),
                    Seq::<char>::empty(),
                ) =~= old_comps + (seq![cur] + spec_split_slash_rest(
                    path@.skip(i + 1),
                    Seq::<char>::empty(),
                )));
                assert(path@.subrange(i + 1, i + 1) =~= Seq::<char>::empty());
            }
        } else {
            proof {
                assert(path@.subrange(start as int, i + 1) =~= cur.push(path@[i as int]));
            }
        }
        i = i + 1;
    }
    let ghost old_comps: Seq<Seq<char>> = comps.deep_view();
    let comp = path.substring_char(start, n);
    comps.push(String::from_str(comp));
    proof {
        assert(path@.skip(n as int) =~= Seq::<char>::empty());
        assert(comps.deep_view() =~= old_comps.push(path@.subrange(start as int, n as int)));
        assert(comps.deep_view() =~= old_comps + seq![path@.subrange(start as int, n as int)]);
    }
    comps
}

/// The abbreviated form of component `i`: the first and last components
/// stay whole, every other one is reduced to its first character, or `?`
/// when it is empty.
pub open spec fn spec_shorten_component(comps: Seq<Seq<char>>, i: int) -> Seq<char> {
    if i == 0 || i == comps.len() - 1 {
        comps[i]
    } else if comps[i].len() == 0 {
        seq!['?']
    } else {
        seq![comps[i][0]]
    }
}

/// Every component of the path in its abbreviated form.
pub open spec fn spec_shortened_components(comps: Seq<Seq<char>>) -> Seq<Seq<char>> {
    Seq::new(comps.len(), |i: int| spec_shorten_component(comps, i))
}

/// Joining parts with `/` between them.
pub open spec fn spec_join_slash(parts: Seq<Seq<char>>) -> Seq<char>
    decreases parts.len(),
{
    if parts.len() == 0 {
        Seq::empty()
    } else if parts.len() == 1 {
        parts[0]
    } else {
        spec_join_slash(parts.drop_last()) + seq!['/'] + parts.last()
    }
}

/// A shortened path: split on `/`, abbreviate every middle component to
/// its first character (`?` when empty), and join back with `/`.
pub open spec fn spec_shorten_path(s: Seq<char>) -> Seq<char> {
    spec_join_slash(spec_shortened_components(spec_split_slash(s)))
}

/// Abbreviates a path for the prompt, as [`spec_shorten_path`] says.
pub fn shorten_path(path: &str) -> (r: String)
    ensures
        r@ == spec_shorten_path(path@),
{
    let comps = split_slash(path);
    let ghost compsm: Seq<Seq<char>> = comps.deep_view();
    let ghost mapped: Seq<Seq<char>> = spec_shortened_components(compsm);
    let n = comps.len();
    let mut out = String::new();
    let mut i: usize = 0;
    proof {
        assert(mapped.subrange(0, 0) =~= Seq::<Seq<char>>::empty());
    }
    while i < n
        invariant
            n == comps.len(),
            compsm == comps.deep_view(),
            mapped == spec_shortened_components(compsm),
            compsm.len() == n,
            mapped.len() == n,
            1 <= n,
            i <= n,
            out@ == spec_join_slash(mapped.subrange(0, i as int)),
        decreases n - i,
    {
        proof {
            assert(compsm[i as int] == comps@[i as int]@);
        }
        if i > 0 {
            out.append("/");
        }
        if i == 0 || i == n - 1 {
            out.append(comps[i].as_str());
            proof {
                assert(mapped[i as int] == compsm[i as int]);
            }
        } else if comps[i].as_str().is_empty() {
            out.append("?");
            proof {
                reveal_strlit("?");
                assert(mapped[i as int] =~= "?"@);
            }
        } else {
            let first = comps[i].as_str().substring_char(0, 1);
            out.append(first);
            proof {
                assert(first@ =~= seq![compsm[i as int][0]]);
                assert(mapped[i as int] == seq![compsm[i as int][0]]);
            }
        }
        proof {
            reveal_strlit("/");
            if i == 0 {
                assert(mapped.subrange(0, 1) =~= seq![mapped[0]]);
                assert(out@ =~= spec_join_slash(mapped.subrange(0, 1)));
            } else {
                assert(mapped.subrange(0, i + 1).drop_last() =~= mapped.subrange(0, i as int));
                assert(mapped.subrange(0, i + 1).last() == mapped[i as int]);
                assert(out@ =~= spec_join_slash(mapped.subrange(0, i + 1)));
            }
        }
        i = i + 1;
    }
    proof {
        assert(mapped.subrange(0, n as int) =~= mapped);
    }
    out
}

/// The directory shown in the prompt: the working directory itself while
/// it is narrower than half the terminal, its shortened form otherwise.
/// The width of the path counts its bytes, as the terminal-width
/// comparison of the prompt does.
pub fn prompt_path(cwd: &str, width: u16) -> (r: String)
    ensures
        r@ == if cwd.spec_bytes().len() < (width as int) / 2 {
            cwd@
        } else {
            spec_shorten_path(cwd@)
        },
{
    let byte_len = cwd.as_bytes().len();
    if byte_len < (width / 2) as usize {
        String::from_str(cwd)
    } else {
        shorten_path(cwd)
    }
}

/// The prompt symbol: `#` for the superuser, `$` for anyone else.
pub fn prompt_symbol(username: &str) -> (r: &'static str)
    ensures
        username@ == "root"@ ==> r@ == "#"@,
        username@ != "root"@ ==> r@ == "$"@,
{
    if str_eq(username, "root") {
        "#"
    } else {
        "$"
    }
}

} // verus!
