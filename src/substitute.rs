//! Substitution of `{name}` placeholders.
use vstd::prelude::*;
use crate::text::{from_chars, to_chars};

verus! {

/// The placeholder that stands for `name`: `{name}`.
pub open spec fn placeholder(name: Seq<char>) -> Seq<char> {
    seq!['{'] + name + seq!['}']
}

/// `p` occurs in `t` at position `i`.
pub open spec fn matches_at(t: Seq<char>, p: Seq<char>, i: int) -> bool {
    0 <= i && i + p.len() <= t.len() && t.subrange(i, i + p.len()) == p
}

/// `p` occurs somewhere in `t`.
pub open spec fn occurs(t: Seq<char>, p: Seq<char>) -> bool {
    exists|i: int| matches_at(t, p, i)
}

/// The text from position `i` on, with each occurrence of `p` found scanning
/// from the left replaced by `v`; occurrences do not overlap.
pub open spec fn replace_from(t: Seq<char>, p: Seq<char>, v: Seq<char>, i: int) -> Seq<char>
    decreases t.len() - i,
{
    if i < 0 || p.len() == 0 || i + p.len() > t.len() {
        if 0 <= i <= t.len() { t.subrange(i, t.len() as int) } else { Seq::empty() }
    } else if matches_at(t, p, i) {
        v + replace_from(t, p, v, i + p.len())
    } else {
        seq![t[i]] + replace_from(t, p, v, i + 1)
    }
}

/// `t` with every occurrence of `p` replaced by `v`, as `str::replace` does.
pub open spec fn replace_all(t: Seq<char>, p: Seq<char>, v: Seq<char>) -> Seq<char> {
    replace_from(t, p, v, 0)
}

/// With no occurrence from `i` on, nothing is replaced.
pub proof fn lemma_replace_none(t: Seq<char>, p: Seq<char>, v: Seq<char>, i: int)
    requires
        0 <= i <= t.len(),
        p.len() > 0,
        forall|k: int| i <= k ==> !matches_at(t, p, k),
    ensures
        replace_from(t, p, v, i) == t.subrange(i, t.len() as int),
    decreases t.len() - i,
{
    if i + p.len() <= t.len() {
        lemma_replace_none(t, p, v, i + 1);
        assert(t.subrange(i, t.len() as int) =~= seq![t[i]] + t.subrange(i + 1, t.len() as int));
    }
}

fn is_match_at(t: &Vec<char>, p: &Vec<char>, i: usize) -> (r: bool)
    requires
        i + p@.len() <= t@.len(),
    ensures
        r == matches_at(t@, p@, i as int),
{
    let tl = t.len();
    let mut j: usize = 0;
    while j < p.len()
        invariant
            j <= p@.len(),
            tl == t@.len(),
            i + p@.len() <= t@.len(),
            forall|m: int| 0 <= m < j ==> t@[i + m] == p@[m],
        decreases p.len() - j,
    {
        assert(i + j < t@.len());
        if t[i + j] != p[j] {
            assert(t@.subrange(i as int, i + p@.len())[j as int] != p@[j as int]);
            return false;
        }
        j = j + 1;
    }
    assert(t@.subrange(i as int, i + p@.len()) =~= p@);
    true
}

/// Replaces every occurrence of `p` in `t` by `v`, and tells whether any was found.
pub fn replace_chars(t: &Vec<char>, p: &Vec<char>, v: &Vec<char>) -> (r: (Vec<char>, bool))
    requires
        p@.len() > 0,
    ensures
        r.0@ == replace_all(t@, p@, v@),
        r.1 == occurs(t@, p@),
{
    let mut out: Vec<char> = Vec::new();
    let mut found = false;
    let mut i: usize = 0;
    while p.len() <= t.len() - i
        invariant
            i <= t@.len(),
            p@.len() > 0,
            out@ + replace_from(t@, p@, v@, i as int) == replace_all(t@, p@, v@),
            found ==> occurs(t@, p@),
            !found ==> forall|k: int| 0 <= k < i ==> !matches_at(t@, p@, k),
        decreases t.len() - i,
    {
        if is_match_at(t, p, i) {
            let mut j: usize = 0;
            let ghost before = out@;
            while j < v.len()
                invariant
                    j <= v@.len(),
                    out@ == before + v@.take(j as int),
                decreases v.len() - j,
            {
                out.push(v[j]);
                j = j + 1;
                assert(v@.take(j as int) =~= v@.take(j - 1).push(v@[j - 1]));
            }
            assert(v@.take(j as int) =~= v@);
            assert(out@ + replace_from(t@, p@, v@, i + p@.len()) =~= before + replace_from(t@, p@, v@, i as int));
            found = true;
            i = i + p.len();
        } else {
            let ghost before = out@;
            out.push(t[i]);
            assert(out@ + replace_from(t@, p@, v@, i + 1) =~= before + replace_from(t@, p@, v@, i as int));
            i = i + 1;
        }
    }
    let ghost before = out@;
    let mut k: usize = i;
    while k < t.len()
        invariant
            i <= k <= t@.len(),
            out@ == before + t@.subrange(i as int, k as int),
        decreases t.len() - k,
    {
        out.push(t[k]);
        k = k + 1;
        assert(t@.subrange(i as int, k as int) =~= t@.subrange(i as int, k - 1).push(t@[k - 1]));
    }
    proof {
        assert(out@ =~= replace_all(t@, p@, v@));
        if !found {
            assert forall|m: int| !matches_at(t@, p@, m) by {
                if m >= i {
                    assert(m + p@.len() > t@.len());
                }
            }
        }
    }
    (out, found)
}

/// The placeholder for `name`, as characters.
pub fn placeholder_chars(name: &str) -> (r: Vec<char>)
    ensures
        r@ == placeholder(name@),
{
    let n = to_chars(name);
    let mut out: Vec<char> = Vec::new();
    out.push('{');
    let mut j: usize = 0;
    while j < n.len()
        invariant
            j <= n@.len(),
            out@ == seq!['{'] + n@.take(j as int),
        decreases n.len() - j,
    {
        out.push(n[j]);
        j = j + 1;
        assert(n@.take(j as int) =~= n@.take(j - 1).push(n@[j - 1]));
    }
    out.push('}');
    assert(n@.take(j as int) =~= n@);
    assert(out@ =~= placeholder(name@));
    out
}

/// Replaces every `{name}` in `text` by `value`.
pub fn substitute(text: &str, name: &str, value: &str) -> (r: String)
    ensures
        r@ == replace_all(text@, placeholder(name@), value@),
{
    let t = to_chars(text);
    let p = placeholder_chars(name);
    let v = to_chars(value);
    let (out, _) = replace_chars(&t, &p, &v);
    from_chars(&out)
}

} // verus!
