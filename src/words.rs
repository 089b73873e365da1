//! ASCII case folding and whitespace splitting.
use vstd::prelude::*;
use crate::text::{from_chars, to_chars};

verus! {

pub open spec fn lower_char(c: char) -> char {
    if 'A' <= c && c <= 'Z' { ((c as u8) + 32) as char } else { c }
}

/// The text with ASCII capitals made small.
pub open spec fn lower(s: Seq<char>) -> Seq<char> {
    s.map_values(|c: char| lower_char(c))
}

/// Folds ASCII capitals to small letters, as characters.
pub fn lower_chars(s: &str) -> (r: Vec<char>)
    ensures
        r@ == lower(s@),
{
    let v = to_chars(s);
    let mut out: Vec<char> = Vec::new();
    let mut i: usize = 0;
    while i < v.len()
        invariant
            i <= v@.len(),
            v@ == s@,
            out@ == lower(v@.take(i as int)),
        decreases v.len() - i,
    {
        let c = v[i];
        let l = if 'A' <= c && c <= 'Z' { ((c as u8) + 32) as char } else { c };
        out.push(l);
        i = i + 1;
        assert(lower(v@.take(i as int)) =~= lower(v@.take(i - 1)).push(lower_char(v@[i - 1])));
    }
    assert(v@.take(i as int) =~= v@);
    out
}

/// Folds ASCII capitals to small letters.
pub fn to_lower(s: &str) -> (r: String)
    ensures
        r@ == lower(s@),
{
    from_chars(&lower_chars(s))
}

pub open spec fn is_space(c: char) -> bool {
    c == ' ' || c == '\t' || c == '\n' || c == '\r' || c == '\x0C'
}

/// Words found and the unfinished word after the first `i` characters.
pub open spec fn word_scan(s: Seq<char>, i: int) -> (Seq<Seq<char>>, Seq<char>)
    decreases i,
{
    if i <= 0 || i > s.len() {
        (Seq::empty(), Seq::empty())
    } else {
        let (done, cur) = word_scan(s, i - 1);
        if is_space(s[i - 1]) {
            (if cur.len() > 0 { done.push(cur) } else { done }, Seq::empty())
        } else {
            (done, cur.push(s[i - 1]))
        }
    }
}

/// The words of a text, separated by ASCII whitespace.
pub open spec fn words(s: Seq<char>) -> Seq<Seq<char>> {
    let (done, cur) = word_scan(s, s.len() as int);
    if cur.len() > 0 { done.push(cur) } else { done }
}

pub open spec fn string_views(v: Seq<String>) -> Seq<Seq<char>> {
    v.map_values(|s: String| s@)
}

/// Splits a text into its words.
pub fn split_words(s: &str) -> (r: Vec<String>)
    ensures
        string_views(r@) == words(s@),
{
    let v = to_chars(s);
    let mut out: Vec<String> = Vec::new();
    let mut cur: Vec<char> = Vec::new();
    let mut i: usize = 0;
    while i < v.len()
        invariant
            i <= v@.len(),
            v@ == s@,
            string_views(out@) == word_scan(v@, i as int).0,
            cur@ == word_scan(v@, i as int).1,
        decreases v.len() - i,
    {
        let c = v[i];
        if c == ' ' || c == '\t' || c == '\n' || c == '\r' || c == '\x0C' {
            if cur.len() > 0 {
                let w = from_chars(&cur);
                let ghost before = out@;
                out.push(w);
                assert(string_views(out@) =~= string_views(before).push(cur@));
            }
            cur = Vec::new();
        } else {
            cur.push(c);
        }
        i = i + 1;
    }
    if cur.len() > 0 {
        let w = from_chars(&cur);
        let ghost before = out@;
        out.push(w);
        assert(string_views(out@) =~= string_views(before).push(cur@));
    }
    out
}

/// Appends `s` unless an equal text is already there.
pub fn push_unique(v: &mut Vec<String>, s: String)
    requires
        string_views(old(v)@).no_duplicates(),
    ensures
        string_views(final(v)@).no_duplicates(),
        forall|t: Seq<char>| string_views(final(v)@).contains(t) <==> (string_views(old(v)@).contains(t) || t == s@),
{
    let ghost before = v@;
    let mut q: usize = 0;
    while q < v.len()
        invariant
            q <= v@.len(),
            v@ == before,
            before == old(v)@,
            string_views(before).no_duplicates(),
            forall|m: int| 0 <= m < q ==> v@[m]@ != s@,
        decreases v.len() - q,
    {
        if v[q] == s {
            assert(string_views(v@)[q as int] == s@);
            return;
        }
        q = q + 1;
    }
    assert(!string_views(before).contains(s@)) by {
        if string_views(before).contains(s@) {
            let m = choose|m: int| 0 <= m < before.len() && string_views(before)[m] == s@;
            assert(before[m]@ == s@);
        }
    }
    let ghost sv = s@;
    v.push(s);
    assert(string_views(v@) =~= string_views(before).push(sv));
    assert forall|t: Seq<char>| string_views(v@).contains(t) <==> (string_views(before).contains(t) || t == sv) by {
        if string_views(v@).contains(t) {
            let m = choose|m: int| 0 <= m < v@.len() && string_views(v@)[m] == t;
            if m < before.len() {
                assert(string_views(before)[m] == t);
            }
        }
        if string_views(before).contains(t) {
            let m = choose|m: int| 0 <= m < before.len() && string_views(before)[m] == t;
            assert(string_views(v@)[m] == t);
        }
        if t == sv {
            assert(string_views(v@)[before.len() as int] == t);
        }
    }
}

} // verus!
