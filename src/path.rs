//! Lexical path cleaning, with `/` as the separator.
use vstd::prelude::*;
use crate::text::{from_chars, to_chars};

verus! {

/// Whether a path starts at the root.
pub open spec fn rooted(s: Seq<char>) -> bool {
    s.len() > 0 && s[0] == '/'
}

pub open spec fn dot() -> Seq<char> {
    seq!['.']
}

pub open spec fn dot_dot() -> Seq<char> {
    seq!['.', '.']
}

/// The kept components after reading one more segment: empty and `.` segments
/// vanish, `..` removes the normal component before it, is dropped right after
/// the root, and is kept at the start of a relative path.
pub open spec fn push_segment(rooted: bool, stack: Seq<Seq<char>>, seg: Seq<char>) -> Seq<Seq<char>> {
    if seg.len() == 0 || seg == dot() {
        stack
    } else if seg == dot_dot() {
        if stack.len() > 0 && stack.last() != dot_dot() {
            stack.drop_last()
        } else if rooted {
            stack
        } else {
            stack.push(seg)
        }
    } else {
        stack.push(seg)
    }
}

/// Kept components and the unfinished segment after the first `i` characters.
pub open spec fn scan(s: Seq<char>, i: nat) -> (Seq<Seq<char>>, Seq<char>)
    decreases i,
{
    if i == 0 || i > s.len() {
        (Seq::empty(), Seq::empty())
    } else {
        let (stack, cur) = scan(s, (i - 1) as nat);
        if s[i - 1] == '/' {
            (push_segment(rooted(s), stack, cur), Seq::empty())
        } else {
            (stack, cur.push(s[i - 1]))
        }
    }
}

/// The components that a cleaned path keeps, in order.
pub open spec fn components(s: Seq<char>) -> Seq<Seq<char>> {
    push_segment(rooted(s), scan(s, s.len()).0, scan(s, s.len()).1)
}

/// Components joined by single slashes.
pub open spec fn join(parts: Seq<Seq<char>>) -> Seq<char>
    decreases parts.len(),
{
    if parts.len() == 0 {
        Seq::empty()
    } else if parts.len() == 1 {
        parts[0]
    } else {
        join(parts.drop_last()) + seq!['/'] + parts.last()
    }
}

/// The cleaned form of a path: the root, then the kept components; `.` when
/// a relative path keeps none.
pub open spec fn clean_spec(s: Seq<char>) -> Seq<char> {
    if rooted(s) {
        seq!['/'] + join(components(s))
    } else if components(s).len() == 0 {
        dot()
    } else {
        join(components(s))
    }
}

fn is_dot(seg: &Vec<char>) -> (r: bool)
    ensures
        r == (seg@ == dot()),
{
    if seg.len() == 1 && seg[0] == '.' {
        assert(seg@ =~= dot());
        true
    } else {
        false
    }
}

fn is_dot_dot(seg: &Vec<char>) -> (r: bool)
    ensures
        r == (seg@ == dot_dot()),
{
    if seg.len() == 2 && seg[0] == '.' && seg[1] == '.' {
        assert(seg@ =~= dot_dot());
        true
    } else {
        false
    }
}

pub open spec fn views(v: Seq<Vec<char>>) -> Seq<Seq<char>> {
    v.map_values(|x: Vec<char>| x@)
}

fn push_segment_exec(rooted: bool, stack: &mut Vec<Vec<char>>, seg: Vec<char>)
    ensures
        views(final(stack)@) == push_segment(rooted, views(old(stack)@), seg@),
{
    if seg.len() == 0 || is_dot(&seg) {
    } else if is_dot_dot(&seg) {
        let n = stack.len();
        if n > 0 && !is_dot_dot(&stack[n - 1]) {
            stack.pop();
            assert(views(stack@) =~= views(old(stack)@).drop_last());
        } else if rooted {
        } else {
            stack.push(seg);
            assert(views(stack@) =~= views(old(stack)@).push(seg@));
        }
    } else {
        stack.push(seg);
        assert(views(stack@) =~= views(old(stack)@).push(seg@));
    }
}

fn join_exec(parts: &Vec<Vec<char>>, out: &mut Vec<char>)
    ensures
        final(out)@ == old(out)@ + join(views(parts@)),
{
    let ghost start = out@;
    let mut k: usize = 0;
    while k < parts.len()
        invariant
            k <= parts.len(),
            out@ == start + join(views(parts@).take(k as int)),
        decreases parts.len() - k,
    {
        let ghost before = out@;
        if k > 0 {
            out.push('/');
        }
        let part = &parts[k];
        let mut j: usize = 0;
        while j < part.len()
            invariant
                j <= part.len(),
                k > 0 ==> out@ == before + seq!['/'] + part@.take(j as int),
                k == 0 ==> out@ == before + part@.take(j as int),
            decreases part.len() - j,
        {
            out.push(part[j]);
            j = j + 1;
            assert(part@.take(j as int) =~= part@.take(j - 1).push(part@[j - 1]));
        }
        proof {
            let p = views(parts@);
            assert(p.take(k + 1).drop_last() =~= p.take(k as int));
            assert(part@.take(j as int) =~= part@);
            if k == 0 {
                assert(join(p.take(0)) =~= Seq::<char>::empty());
            }
        }
        k = k + 1;
    }
    assert(views(parts@).take(k as int) =~= views(parts@));
}

/// Cleans up a path, lexically: collapses repeated slashes, drops `.`
/// components, and removes each `..` with the normal component before it
/// (a `..` right after the root vanishes, one leading a relative path stays).
/// An empty result is `.`.
pub fn clean(path: &str) -> (r: String)
    ensures
        r@ == clean_spec(path@),
{
    let s = to_chars(path);
    let root = s.len() > 0 && s[0] == '/';
    let mut stack: Vec<Vec<char>> = Vec::new();
    let mut cur: Vec<char> = Vec::new();
    let mut i: usize = 0;
    assert(views(stack@) =~= Seq::<Seq<char>>::empty());
    while i < s.len()
        invariant
            i <= s.len(),
            s@ == path@,
            root == rooted(s@),
            views(stack@) == scan(s@, i as nat).0,
            cur@ == scan(s@, i as nat).1,
        decreases s.len() - i,
    {
        let c = s[i];
        if c == '/' {
            let seg = cur;
            cur = Vec::new();
            push_segment_exec(root, &mut stack, seg);
        } else {
            cur.push(c);
        }
        i = i + 1;
    }
    push_segment_exec(root, &mut stack, cur);
    let mut out: Vec<char> = Vec::new();
    if root {
        out.push('/');
        join_exec(&stack, &mut out);
    } else if stack.len() == 0 {
        out.push('.');
        assert(out@ =~= dot());
    } else {
        join_exec(&stack, &mut out);
        assert(out@ =~= join(views(stack@)));
    }
    from_chars(&out)
}

/// Cleaning of path-like strings.
pub trait PathClean {
    spec fn path_view(&self) -> Seq<char>;

    fn clean(&self) -> (r: String)
        ensures
            r@ == clean_spec(self.path_view()),
    ;
}

impl PathClean for String {
    open spec fn path_view(&self) -> Seq<char> {
        self@
    }

    fn clean(&self) -> (r: String) {
        clean(self.as_str())
    }
}

impl PathClean for str {
    open spec fn path_view(&self) -> Seq<char> {
        self@
    }

    fn clean(&self) -> (r: String) {
        clean(self)
    }
}

/// The root in place of the current directory.
pub trait PathUtils {
    spec fn path_view(&self) -> Seq<char>;

    /// `root` when `self` is `.`, otherwise `self`.
    fn to_root(&self, root: &str) -> (r: String)
        ensures
            r@ == (if self.path_view() == dot() { root@ } else { self.path_view() }),
    ;
}

impl PathUtils for str {
    open spec fn path_view(&self) -> Seq<char> {
        self@
    }

    fn to_root(&self, root: &str) -> (r: String) {
        let s = to_chars(self);
        if is_dot(&s) {
            root.to_owned()
        } else {
            self.to_owned()
        }
    }
}

} // verus!
