//! Names of scanned entries, taken from their paths.

use vstd::prelude::*;

verus! {

/// `rep` before each character of `s` and once after the last.
pub open spec fn interleave(s: Seq<char>, rep: Seq<char>) -> Seq<char>
    decreases s.len(),
{
    if s.len() == 0 {
        rep
    } else {
        rep + seq![s[0]] + interleave(s.drop_first(), rep)
    }
}

/// `s` with every match of `pat`, taken from the left without overlap,
/// replaced by `rep`; an empty `pat` matches before each character and at
/// the end.
pub open spec fn replace_spec(s: Seq<char>, pat: Seq<char>, rep: Seq<char>) -> Seq<char>
    decreases s.len(),
{
    if pat.len() == 0 {
        interleave(s, rep)
    } else if s.len() < pat.len() {
        s
    } else if s.take(pat.len() as int) == pat {
        rep + replace_spec(s.skip(pat.len() as int), pat, rep)
    } else {
        seq![s[0]] + replace_spec(s.drop_first(), pat, rep)
    }
}

/// `str::replace`: the string with all matches of `from` replaced by `to`,
/// matches found from the left and not overlapping, as its documentation
/// says; where `from` is empty, `to` goes before every character and at the
/// end. Trusted: the contract is believed, not proved.
#[verifier::external_body]
fn str_replace(s: &str, from: &str, to: &str) -> (res: String)
    ensures
        res@ == replace_spec(s@, from@, to@),
{
    s.replace(from, to)
}

/// The name of an entry: `child_path` with every occurrence of
/// `parent_path` removed, then every '/'.
pub open spec fn strip_spec(parent_path: Seq<char>, child_path: Seq<char>) -> Seq<char> {
    replace_spec(replace_spec(child_path, parent_path, Seq::empty()), seq!['/'], Seq::empty())
}

/// The name under which the entry at `child_path` of the directory at
/// `parent_path` is kept.
pub fn strip(parent_path: &str, child_path: &str) -> (res: String)
    ensures
        res@ == strip_spec(parent_path@, child_path@),
{
    let empty = "";
    let slash = "/";
    proof {
        reveal_strlit("");
        reveal_strlit("/");
        assert(empty@ =~= Seq::<char>::empty());
        assert(slash@ =~= seq!['/']);
    }
    let tmp = str_replace(child_path, parent_path, empty);
    str_replace(tmp.as_str(), slash, empty)
}

/// Removing every match of a one-character pattern leaves no such
/// character.
pub proof fn lemma_remove_char(s: Seq<char>, c: char)
    ensures
        !replace_spec(s, seq![c], Seq::empty()).contains(c),
    decreases s.len(),
{
    let r = replace_spec(s, seq![c], Seq::empty());
    if s.len() == 0 {
        assert(r =~= s);
    } else {
        lemma_remove_char(s.drop_first(), c);
        let rest = replace_spec(s.drop_first(), seq![c], Seq::empty());
        if s.take(1) == seq![c] {
            assert(s.skip(1) =~= s.drop_first());
            assert(r =~= rest);
        } else {
            assert(s[0] != c) by {
                if s[0] == c {
                    assert(s.take(1) =~= seq![c]);
                }
            }
            assert(r =~= seq![s[0]] + rest);
            if r.contains(c) {
                let k = choose|k: int| 0 <= k < r.len() && r[k] == c;
                if k > 0 {
                    assert(rest[k - 1] == c);
                }
            }
        }
    }
}

/// A kept name never holds a '/'.
pub proof fn lemma_strip_has_no_slash(parent_path: Seq<char>, child_path: Seq<char>)
    ensures
        !strip_spec(parent_path, child_path).contains('/'),
{
    lemma_remove_char(replace_spec(child_path, parent_path, Seq::empty()), '/');
}

} // verus!
