//! The actions a document describes, and the text and path work they do.
use vstd::prelude::*;
use crate::path::{clean, clean_spec};
use crate::substitute::{occurs, placeholder, placeholder_chars, replace_all, replace_chars, substitute};
use crate::text::{from_chars, to_chars};
use crate::value::{render_spec, Number, State, Value};
use crate::traverser::Traverser;

verus! {

/// Copies files. Glob-friendly. Overwrites by default.
#[derive(Debug)]
pub struct Copy {
    pub from: String,
    pub to: String,
    pub overwrite: bool,
}

/// Moves files and directories. Glob-friendly. Overwrites by default.
#[derive(Debug)]
pub struct Move {
    pub from: String,
    pub to: String,
    pub overwrite: bool,
}

/// Deletes files and directories. Glob-friendly.
#[derive(Debug)]
pub struct Delete {
    pub target: String,
}

/// Prints a message.
#[derive(Debug)]
pub struct Echo {
    pub message: String,
    /// Names whose `{name}` placeholders are substituted, each once.
    pub injects: Option<Vec<String>>,
    /// Whether to trim and de-indent the message. Defaults to `true`.
    pub trim: bool,
}

/// Runs a command in the shell.
#[derive(Debug)]
pub struct Run {
    pub name: Option<String>,
    pub command: String,
    /// Names whose `{name}` placeholders are substituted, each once.
    pub injects: Option<Vec<String>>,
}

#[derive(Debug)]
pub struct InputPrompt {
    pub name: String,
    pub hint: String,
    pub default: Option<String>,
}

#[derive(Debug)]
pub struct NumberPrompt {
    pub name: String,
    pub hint: String,
    pub default: Option<Number>,
}

#[derive(Debug)]
pub struct SelectPrompt {
    pub name: String,
    pub hint: String,
    pub options: Vec<String>,
}

#[derive(Debug)]
pub struct ConfirmPrompt {
    pub name: String,
    pub hint: String,
    pub default: Option<bool>,
}

#[derive(Debug)]
pub struct EditorPrompt {
    pub name: String,
    pub hint: String,
    pub default: Option<String>,
}

/// An interactive question whose answer is stored under its name.
#[derive(Debug)]
pub enum Prompt {
    Input(InputPrompt),
    Number(NumberPrompt),
    Select(SelectPrompt),
    Confirm(ConfirmPrompt),
    Editor(EditorPrompt),
}

/// Substitutes stored values for placeholders in files, optionally only in
/// files that match a glob.
#[derive(Debug)]
pub struct Replace {
    /// Names to substitute, each once.
    pub replacements: Vec<String>,
    pub glob: Option<String>,
}

/// An action of a kind that is not known; reported, never run.
#[derive(Debug)]
pub struct Unknown {
    pub name: String,
}

/// `text` with `{name}` replaced by the value stored under `name`, when that
/// value is a string.
pub open spec fn inject_one(text: Seq<char>, name: Seq<char>, st: State) -> Seq<char> {
    match st.get_spec(name) {
        Some(Value::String(s)) => replace_all(text, placeholder(name), s@),
        _ => text,
    }
}

/// `text` after injecting the first `k` names, in order.
pub open spec fn inject_all(text: Seq<char>, names: Seq<String>, st: State, k: int) -> Seq<char>
    decreases k,
{
    if k <= 0 || k > names.len() {
        text
    } else {
        inject_one(inject_all(text, names, st, k - 1), names[k - 1]@, st)
    }
}

pub open spec fn injected(text: Seq<char>, injects: Option<Vec<String>>, st: State) -> Seq<char> {
    match injects {
        Some(names) => inject_all(text, names@, st, names@.len() as int),
        None => text,
    }
}

/// Injects string values for the given names, in order.
fn inject(text: String, injects: &Option<Vec<String>>, state: &State) -> (r: String)
    ensures
        r@ == injected(text@, *injects, *state),
{
    match injects {
        None => text,
        Some(names) => {
            let mut out = text;
            let ghost start = out@;
            let mut k: usize = 0;
            while k < names.len()
                invariant
                    k <= names@.len(),
                    out@ == inject_all(start, names@, *state, k as int),
                decreases names.len() - k,
            {
                match state.get(names[k].as_str()) {
                    Some(Value::String(s)) => {
                        out = substitute(out.as_str(), names[k].as_str(), s.as_str());
                    },
                    _ => {},
                }
                k = k + 1;
            }
            out
        },
    }
}

/// What `str::trim` returns: the text without leading and trailing whitespace.
pub uninterp spec fn trimmed_of(s: Seq<char>) -> Seq<char>;

/// What `unindent::unindent` returns: the text with its common indentation removed.
pub uninterp spec fn unindented_of(s: Seq<char>) -> Seq<char>;

/// Relies on `str::trim`: the result depends on the characters alone.
#[verifier::external_body]
fn trim_text(s: &str) -> (r: String)
    ensures
        r@ == trimmed_of(s@),
{
    s.trim().to_string()
}

/// Relies on `unindent::unindent`: the result depends on the characters alone.
#[verifier::external_body]
fn unindent_text(s: &str) -> (r: String)
    ensures
        r@ == unindented_of(s@),
{
    unindent::unindent(s)
}

/// The message that an echo prints, before its placeholders are filled.
pub open spec fn echo_base(e: Echo) -> Seq<char> {
    if e.trim { unindented_of(trimmed_of(e.message@)) } else { unindented_of(e.message@) }
}

impl Echo {
    /// The message to print: trimmed when asked, de-indented, with the string
    /// values of the injected names filled in.
    pub fn render(&self, state: &State) -> (r: String)
        ensures
            r@ == injected(echo_base(*self), self.injects, *state),
    {
        let base = if self.trim {
            let t = trim_text(self.message.as_str());
            unindent_text(t.as_str())
        } else {
            unindent_text(self.message.as_str())
        };
        inject(base, &self.injects, state)
    }
}

impl Run {
    /// The command to run, with the string values of the injected names filled in.
    pub fn command_with(&self, state: &State) -> (r: String)
        ensures
            r@ == injected(self.command@, self.injects, *state),
    {
        inject(self.command.clone(), &self.injects, state)
    }
}

/// The text after the first `k` replacements, each applied when a value is
/// stored under its name.
pub open spec fn replaced(text: Seq<char>, names: Seq<String>, st: State, k: int) -> Seq<char>
    decreases k,
{
    if k <= 0 || k > names.len() {
        text
    } else {
        let t = replaced(text, names, st, k - 1);
        match st.get_spec(names[k - 1]@) {
            Some(v) => replace_all(t, placeholder(names[k - 1]@), render_spec(v)),
            None => t,
        }
    }
}

/// Replacement `k` substituted at least one placeholder.
pub open spec fn applied_at(text: Seq<char>, names: Seq<String>, st: State, k: int) -> bool {
    st.get_spec(names[k]@) is Some && occurs(replaced(text, names, st, k), placeholder(names[k]@))
}

/// The outcome of replacing in one file.
#[derive(Debug)]
pub struct FileReplacement {
    /// The new contents.
    pub text: String,
    /// For each requested name, whether it was substituted here.
    pub applied: Vec<bool>,
}

impl FileReplacement {
    /// Whether the file is to be written back: some substitution happened.
    pub fn should_write(&self) -> (r: bool)
        ensures
            r == exists|k: int| 0 <= k < self.applied@.len() && self.applied@[k],
    {
        let mut k: usize = 0;
        while k < self.applied.len()
            invariant
                k <= self.applied@.len(),
                forall|m: int| 0 <= m < k ==> !self.applied@[m],
            decreases self.applied.len() - k,
        {
            if self.applied[k] {
                return true;
            }
            k = k + 1;
        }
        false
    }
}

/// What replacing the names in `text` gives.
pub open spec fn is_file_replacement(r: FileReplacement, text: Seq<char>, names: Seq<String>, st: State) -> bool {
    &&& r.text@ == replaced(text, names, st, names.len() as int)
    &&& r.applied@.len() == names.len()
    &&& forall|k: int| 0 <= k < names.len() ==> r.applied@[k] == applied_at(text, names, st, k)
}

impl Replace {
    /// Substitutes, in order, each requested name that has a stored value,
    /// and records which names were substituted.
    pub fn apply(&self, text: &str, state: &State) -> (r: FileReplacement)
        ensures
            is_file_replacement(r, text@, self.replacements@, *state),
    {
        let names = &self.replacements;
        let mut cur = to_chars(text);
        let mut applied: Vec<bool> = Vec::new();
        let mut k: usize = 0;
        while k < names.len()
            invariant
                k <= names@.len(),
                cur@ == replaced(text@, names@, *state, k as int),
                applied@.len() == k,
                forall|m: int| 0 <= m < k ==> applied@[m] == applied_at(text@, names@, *state, m),
            decreases names.len() - k,
        {
            match state.get(names[k].as_str()) {
                Some(v) => {
                    let value = v.render();
                    let p = placeholder_chars(names[k].as_str());
                    let vc = to_chars(value.as_str());
                    let (next, found) = replace_chars(&cur, &p, &vc);
                    cur = next;
                    applied.push(found);
                },
                None => {
                    applied.push(false);
                },
            }
            k = k + 1;
        }
        FileReplacement { text: from_chars(&cur), applied }
    }
}

/// Marks as applied every name that a file applied.
pub fn merge_applied(acc: &mut Vec<bool>, file: &Vec<bool>)
    requires
        old(acc)@.len() == file@.len(),
    ensures
        final(acc)@.len() == file@.len(),
        forall|k: int| 0 <= k < file@.len() ==> (final(acc)@[k] <==> (old(acc)@[k] || file@[k])),
{
    let ghost start = acc@;
    let mut k: usize = 0;
    while k < file.len()
        invariant
            k <= file@.len(),
            acc@.len() == file@.len(),
            start.len() == file@.len(),
            start == old(acc)@,
            forall|m: int| 0 <= m < k ==> (#[trigger] acc@[m] <==> (start[m] || file@[m])),
            forall|m: int| k <= m < file@.len() ==> #[trigger] acc@[m] == start[m],
        decreases file.len() - k,
    {
        if file[k] {
            acc.set(k, true);
        }
        k = k + 1;
    }
}

/// With no placeholder of a stored name left in the text, replacing changes
/// nothing and writes nothing back.
pub proof fn law_replace_settled(text: Seq<char>, names: Seq<String>, st: State, r: FileReplacement)
    requires
        forall|k: int| 0 <= k < names.len() && st.get_spec(names[k]@) is Some
            ==> !occurs(text, placeholder(names[k]@)),
        is_file_replacement(r, text, names, st),
    ensures
        r.text@ == text,
        forall|k: int| 0 <= k < names.len() ==> !r.applied@[k],
{
    lemma_replaced_unchanged(text, names, st, names.len() as int);
}

proof fn lemma_replaced_unchanged(text: Seq<char>, names: Seq<String>, st: State, k: int)
    requires
        0 <= k <= names.len(),
        forall|m: int| 0 <= m < names.len() && st.get_spec(names[m]@) is Some
            ==> !occurs(text, placeholder(names[m]@)),
    ensures
        replaced(text, names, st, k) == text,
        forall|m: int| 0 <= m < k ==> !applied_at(text, names, st, m),
    decreases k,
{
    if k > 0 {
        lemma_replaced_unchanged(text, names, st, k - 1);
        let name = names[k - 1]@;
        if st.get_spec(name) is Some {
            let p = placeholder(name);
            crate::substitute::lemma_replace_none(text, p, render_spec(st.get_spec(name)->0), 0);
            assert(text.subrange(0, text.len() as int) =~= text);
        }
    }
}

/// Requested names without a stored value substitute nothing and are not
/// reported as applied.
pub proof fn law_replace_unknown_names(text: Seq<char>, names: Seq<String>, st: State, r: FileReplacement)
    requires
        forall|k: int| 0 <= k < names.len() ==> st.get_spec(names[k]@) is None,
        is_file_replacement(r, text, names, st),
    ensures
        r.text@ == text,
        forall|k: int| 0 <= k < names.len() ==> !r.applied@[k],
{
    law_replace_settled(text, names, st, r);
}

impl Copy {
    /// Whether to copy onto a destination: always when overwriting, else only
    /// when nothing is there.
    pub fn should_transfer(&self, destination_exists: bool) -> (r: bool)
        ensures
            r == (self.overwrite || !destination_exists),
    {
        self.overwrite || !destination_exists
    }

    /// Where a matched file goes: the destination directory joined with the
    /// file's name, cleaned.
    pub fn target(&self, root: &str, matched: &str) -> (r: Option<String>)
        ensures
            r matches Some(t) ==> file_name(matched@) is Some
                && t@ == clean_spec(join_spec(join_spec(root@, self.to@), file_name(matched@)->0)),
            r is None ==> file_name(matched@) is None,
    {
        target_for(root, self.to.as_str(), matched)
    }
}

impl Move {
    /// Whether to move onto a destination: always when overwriting, else only
    /// when nothing is there.
    pub fn should_transfer(&self, destination_exists: bool) -> (r: bool)
        ensures
            r == (self.overwrite || !destination_exists),
    {
        self.overwrite || !destination_exists
    }

    /// Where a matched entry goes: the destination directory joined with the
    /// entry's name, cleaned.
    pub fn target(&self, root: &str, matched: &str) -> (r: Option<String>)
        ensures
            r matches Some(t) ==> file_name(matched@) is Some
                && t@ == clean_spec(join_spec(join_spec(root@, self.to@), file_name(matched@)->0)),
            r is None ==> file_name(matched@) is None,
    {
        target_for(root, self.to.as_str(), matched)
    }
}

fn target_for(root: &str, to: &str, matched: &str) -> (r: Option<String>)
    ensures
        r matches Some(t) ==> file_name(matched@) is Some
            && t@ == clean_spec(join_spec(join_spec(root@, to@), file_name(matched@)->0)),
        r is None ==> file_name(matched@) is None,
{
    match file_name_of(matched) {
        None => None,
        Some(name) => {
            let dir = join(root, to);
            let full = join(dir.as_str(), name.as_str());
            Some(clean(full.as_str()))
        },
    }
}

/// `b` under `a`: `b` itself when absolute, else `a`, a slash unless `a` is
/// empty or ends in one, and `b`.
pub open spec fn join_spec(a: Seq<char>, b: Seq<char>) -> Seq<char> {
    if b.len() > 0 && b[0] == '/' {
        b
    } else if a.len() == 0 || a.last() == '/' {
        a + b
    } else {
        a + seq!['/'] + b
    }
}

/// Joins two paths.
pub fn join(a: &str, b: &str) -> (r: String)
    ensures
        r@ == join_spec(a@, b@),
{
    let x = to_chars(a);
    let y = to_chars(b);
    if y.len() > 0 && y[0] == '/' {
        return b.to_owned();
    }
    let mut out = x;
    if out.len() > 0 && out[out.len() - 1] != '/' {
        out.push('/');
    }
    let ghost before = out@;
    let mut j: usize = 0;
    while j < y.len()
        invariant
            j <= y@.len(),
            out@ == before + y@.take(j as int),
        decreases y.len() - j,
    {
        out.push(y[j]);
        j = j + 1;
        assert(y@.take(j as int) =~= y@.take(j - 1).push(y@[j - 1]));
    }
    assert(y@.take(j as int) =~= y@);
    proof {
        if x@.len() == 0 || x@.last() == '/' {
            assert(out@ =~= a@ + b@);
        } else {
            assert(out@ =~= a@ + seq!['/'] + b@);
        }
    }
    from_chars(&out)
}

/// Index just past the last slash among the first `k` characters.
pub open spec fn name_start(p: Seq<char>, k: int) -> int
    decreases k,
{
    if k <= 0 || k > p.len() {
        0
    } else if p[k - 1] == '/' {
        k
    } else {
        name_start(p, k - 1)
    }
}

/// The last component of a path: what follows its last slash, unless that is
/// empty, `.` or `..`.
pub open spec fn file_name(p: Seq<char>) -> Option<Seq<char>> {
    let n = p.subrange(name_start(p, p.len() as int), p.len() as int);
    if n.len() == 0 || n == seq!['.'] || n == seq!['.', '.'] {
        None
    } else {
        Some(n)
    }
}

proof fn lemma_name_start_bounds(p: Seq<char>, k: int)
    requires
        0 <= k <= p.len(),
    ensures
        0 <= name_start(p, k) <= k,
    decreases k,
{
    if k > 0 {
        lemma_name_start_bounds(p, k - 1);
    }
}

/// The last component of a path.
pub fn file_name_of(path: &str) -> (r: Option<String>)
    ensures
        r matches Some(n) ==> file_name(path@) == Some(n@),
        r is None ==> file_name(path@) is None,
{
    let p = to_chars(path);
    let mut k: usize = p.len();
    while k > 0 && p[k - 1] != '/'
        invariant
            k <= p@.len(),
            name_start(p@, p@.len() as int) == name_start(p@, k as int),
        decreases k,
    {
        k = k - 1;
    }
    proof {
        lemma_name_start_bounds(p@, p@.len() as int);
    }
    let mut n: Vec<char> = Vec::new();
    let mut j: usize = k;
    while j < p.len()
        invariant
            k <= j <= p@.len(),
            n@ == p@.subrange(k as int, j as int),
        decreases p.len() - j,
    {
        n.push(p[j]);
        j = j + 1;
        assert(p@.subrange(k as int, j as int) =~= p@.subrange(k as int, j - 1).push(p@[j - 1]));
    }
    assert(name_start(p@, k as int) == k);
    if n.len() == 0 || (n.len() == 1 && n[0] == '.') || (n.len() == 2 && n[0] == '.' && n[1] == '.') {
        proof {
            if n.len() == 1 { assert(n@ =~= seq!['.']); }
            if n.len() == 2 { assert(n@ =~= seq!['.', '.']); }
        }
        None
    } else {
        proof {
            assert(n@ != seq!['.']) by { if n@ == seq!['.'] { assert(n@[0] == '.'); } }
            assert(n@ != seq!['.', '.']) by { if n@ == seq!['.', '.'] { assert(n@[0] == '.' && n@[1] == '.'); } }
        }
        Some(from_chars(&n))
    }
}

fn append_chars(out: &mut Vec<char>, s: &Vec<char>)
    ensures
        final(out)@ == old(out)@ + s@,
{
    let ghost before = out@;
    let mut j: usize = 0;
    while j < s.len()
        invariant
            j <= s@.len(),
            out@ == before + s@.take(j as int),
        decreases s.len() - j,
    {
        out.push(s[j]);
        j = j + 1;
        assert(s@.take(j as int) =~= s@.take(j - 1).push(s@[j - 1]));
    }
    assert(s@.take(j as int) =~= s@);
}

pub open spec fn help_prefix() -> Seq<char> {
    seq!['T', 'h', 'e', ' ', 'a', 'n', 's', 'w', 'e', 'r', ' ', 'w', 'i', 'l', 'l', ' ', 'b', 'e', ' ',
        'm', 'a', 'p', 'p', 'e', 'd', ' ', 't', 'o', ':', ' ']
}

/// The texts a prompt shows: the variable name, the hint followed by a colon,
/// and a help line naming the variable the answer is stored under.
pub fn messages(name: &str, hint: &str) -> (r: (String, String, String))
    ensures
        r.0@ == name@,
        r.1@ == hint@ + seq![':'],
        r.2@ == help_prefix() + name@,
{
    let n = to_chars(name);
    let mut h = to_chars(hint);
    h.push(':');
    let mut help: Vec<char> = vec!['T', 'h', 'e', ' ', 'a', 'n', 's', 'w', 'e', 'r', ' ', 'w', 'i', 'l', 'l', ' ', 'b', 'e', ' ',
        'm', 'a', 'p', 'p', 'e', 'd', ' ', 't', 'o', ':', ' '];
    assert(help@ =~= help_prefix());
    append_chars(&mut help, &n);
    (name.to_owned(), from_chars(&h), from_chars(&help))
}

impl Copy {
    /// The traversal that finds what to copy: files only, contents first.
    pub fn traverser(&self, root: &str) -> (r: Traverser)
        ensures
            r.root_spec() == root@,
            r.pattern_spec() == Some(self.from@),
            r.ignore_dirs_spec(),
            r.contents_first_spec(),
    {
        Traverser::new(root).ignore_dirs(true).contents_first(true).pattern(self.from.as_str())
    }
}

impl Move {
    /// The traversal that finds what to move: files and directories, contents first.
    pub fn traverser(&self, root: &str) -> (r: Traverser)
        ensures
            r.root_spec() == root@,
            r.pattern_spec() == Some(self.from@),
            !r.ignore_dirs_spec(),
            r.contents_first_spec(),
    {
        Traverser::new(root).ignore_dirs(false).contents_first(true).pattern(self.from.as_str())
    }
}

impl Delete {
    /// The traversal that finds what to delete: files and directories, each
    /// directory before its contents.
    pub fn traverser(&self, root: &str) -> (r: Traverser)
        ensures
            r.root_spec() == root@,
            r.pattern_spec() == Some(self.target@),
            !r.ignore_dirs_spec(),
            !r.contents_first_spec(),
    {
        Traverser::new(root).ignore_dirs(false).contents_first(false).pattern(self.target.as_str())
    }
}

pub open spec fn all_files() -> Seq<char> {
    seq!['*', '*', '/', '*']
}

impl Replace {
    /// The traversal that finds the files to substitute in: those matching
    /// the glob, or every file without one.
    pub fn traverser(&self, root: &str) -> (r: Traverser)
        ensures
            r.root_spec() == root@,
            r.pattern_spec() == Some(match self.glob {
                Some(g) => g@,
                None => all_files(),
            }),
            r.ignore_dirs_spec(),
            r.contents_first_spec(),
    {
        let t = Traverser::new(root).ignore_dirs(true).contents_first(true);
        match &self.glob {
            Some(g) => t.pattern(g.as_str()),
            None => {
                let v: Vec<char> = vec!['*', '*', '/', '*'];
                assert(v@ =~= all_files());
                let p = from_chars(&v);
                t.pattern(p.as_str())
            },
        }
    }
}

/// Index of the first line break in `t`, or its length.
pub open spec fn line_end(t: Seq<char>, k: int) -> int
    decreases t.len() - k,
{
    if k < 0 || k >= t.len() {
        t.len() as int
    } else if t[k] == '\n' {
        k
    } else {
        line_end(t, k + 1)
    }
}

/// The first line of a text, without a carriage return at its end.
pub open spec fn first_line(t: Seq<char>) -> Seq<char> {
    let l = t.take(line_end(t, 0));
    if l.len() > 0 && l.last() == '\r' { l.drop_last() } else { l }
}

proof fn lemma_line_end_bounds(t: Seq<char>, k: int)
    requires
        0 <= k <= t.len(),
    ensures
        k <= line_end(t, k) <= t.len(),
        line_end(t, k) < t.len() ==> t[line_end(t, k)] == '\n',
    decreases t.len() - k,
{
    if k < t.len() && t[k] != '\n' {
        lemma_line_end_bounds(t, k + 1);
    }
}

impl Run {
    /// The name shown for the command: its own name, else the command when
    /// it is one line, else the first line of the trimmed command and `...`.
    pub fn display_name(&self, command: &str) -> (r: String)
        ensures
            r@ == match self.name {
                Some(n) => n@,
                None => if line_end(trimmed_of(command@), 0) < trimmed_of(command@).len() {
                    first_line(trimmed_of(command@)) + seq!['.', '.', '.']
                } else {
                    command@
                },
            },
    {
        match &self.name {
            Some(n) => n.clone(),
            None => {
                let t = trim_text(command);
                let c = to_chars(t.as_str());
                let mut k: usize = 0;
                while k < c.len() && c[k] != '\n'
                    invariant
                        k <= c@.len(),
                        line_end(c@, 0) == line_end(c@, k as int),
                    decreases c.len() - k,
                {
                    k = k + 1;
                }
                proof {
                    lemma_line_end_bounds(c@, 0);
                }
                if k == c.len() {
                    return command.to_owned();
                }
                let mut out: Vec<char> = Vec::new();
                let mut j: usize = 0;
                while j < k
                    invariant
                        j <= k,
                        k <= c@.len(),
                        out@ == c@.take(j as int),
                    decreases k - j,
                {
                    out.push(c[j]);
                    j = j + 1;
                    assert(c@.take(j as int) =~= c@.take(j - 1).push(c@[j - 1]));
                }
                if out.len() > 0 && out[out.len() - 1] == '\r' {
                    out.pop();
                }
                proof {
                    assert(c@.take(line_end(c@, 0)) == c@.take(k as int));
                }
                let ghost line = out@;
                out.push('.');
                out.push('.');
                out.push('.');
                assert(out@ =~= line + seq!['.', '.', '.']);
                from_chars(&out)
            },
        }
    }
}

} // verus!
