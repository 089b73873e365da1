//! Compilation of a document into options and a validated set of actions.
use vstd::prelude::*;
use crate::actions::{
    ConfirmPrompt, Delete, Echo, EditorPrompt, InputPrompt, Move, NumberPrompt, Prompt, Replace, Run,
    SelectPrompt, Unknown,
};
use crate::document::{arg, arg_spec, child, child_spec, prop, prop_spec, Entry, Node, Scalar, Span};
use crate::text::same_chars;
use crate::value::{decimal, Number};
use crate::words::{lower, lower_chars, push_unique, string_views, words, split_words};

verus! {

/// Options of a document. They may be overridden by the caller.
#[derive(Debug)]
pub struct ConfigOptions {
    /// Whether to delete the document after a successful run.
    pub delete: bool,
}

impl ConfigOptions {
    /// The options of a document that sets none.
    pub fn new() -> (r: ConfigOptions)
        ensures
            r.delete,
    {
        ConfigOptions { delete: true }
    }

    /// Applies the overrides that are set.
    pub fn override_with(&mut self, overrides: &ConfigOptionsOverrides)
        ensures
            final(self).delete == match overrides.delete {
                Some(d) => d,
                None => old(self).delete,
            },
    {
        if let Some(d) = overrides.delete {
            self.delete = d;
        }
    }
}

/// Overrides of the document's options.
#[derive(Debug, Default)]
pub struct ConfigOptionsOverrides {
    pub delete: Option<bool>,
}

/// A single action.
#[derive(Debug)]
pub enum ActionSingle {
    Copy(crate::actions::Copy),
    Move(Move),
    Delete(Delete),
    Echo(Echo),
    Run(Run),
    Prompt(Prompt),
    Replace(Replace),
    Unknown(Unknown),
}

/// A named group of actions, which may require other suites by name.
#[derive(Debug)]
pub struct ActionSuite {
    pub name: String,
    pub actions: Vec<ActionSingle>,
    pub requirements: Vec<String>,
}

impl crate::graph::Node for ActionSuite {
    open spec fn key(&self) -> Seq<char> {
        self.name@
    }

    open spec fn requirements(&self) -> Seq<Seq<char>> {
        string_views(self.requirements@)
    }

    fn dependencies(&self) -> (r: &Vec<String>) {
        &self.requirements
    }

    fn matches(&self, dep: &String) -> (r: bool) {
        self.name == *dep
    }
}

/// The actions of a document: suites, or a flat list, or none.
#[derive(Debug)]
pub enum Actions {
    Suite(Vec<ActionSuite>),
    Flat(Vec<ActionSingle>),
    Empty,
}

/// Why a document does not compile, with the span to point at.
#[derive(Debug)]
pub enum ConfigError {
    /// A node lacks its string argument; points at the node's name.
    MissingArgument { at: Span },
    /// A node lacks a string attribute; points at the node.
    MissingAttribute { key: String, at: Span },
    /// A prompt has no children; points at the prompt.
    MissingChildren { at: Span },
    /// A prompt has no `hint` child; points at the prompt.
    MissingHint { at: Span },
    /// A select prompt has no `options` child; points at the prompt.
    MissingOptions { at: Span },
    /// A select option is neither a string nor a number; points at it.
    InvalidOptionType { at: Span },
    /// An option node lacks its boolean argument; points at the node.
    MissingBoolean { at: Span },
    /// The actions block mixes suites with single actions.
    MixedActions,
}

/// What a `ConfigError` says, with texts as characters.
pub enum Problem {
    MissingArgument(Span),
    MissingAttribute(Seq<char>, Span),
    MissingChildren(Span),
    MissingHint(Span),
    MissingOptions(Span),
    InvalidOptionType(Span),
    MissingBoolean(Span),
    MixedActions,
}

impl ConfigError {
    pub open spec fn problem(&self) -> Problem {
        match self {
            ConfigError::MissingArgument { at } => Problem::MissingArgument(*at),
            ConfigError::MissingAttribute { key, at } => Problem::MissingAttribute(key@, *at),
            ConfigError::MissingChildren { at } => Problem::MissingChildren(*at),
            ConfigError::MissingHint { at } => Problem::MissingHint(*at),
            ConfigError::MissingOptions { at } => Problem::MissingOptions(*at),
            ConfigError::InvalidOptionType { at } => Problem::InvalidOptionType(*at),
            ConfigError::MissingBoolean { at } => Problem::MissingBoolean(*at),
            ConfigError::MixedActions => Problem::MixedActions,
        }
    }
}

/// The kinds of action, by node name.
#[derive(Debug, Clone, Copy, PartialEq, Eq, Structural)]
pub enum ActionKind {
    Copy,
    Move,
    Delete,
    Echo,
    Run,
    Input,
    Number,
    Select,
    Confirm,
    Editor,
    Replace,
    Unknown,
}

/// The kind that a (case-folded) node name names.
pub open spec fn kind_spec(l: Seq<char>) -> ActionKind {
    if l == seq!['c', 'p'] || l == seq!['c', 'o', 'p', 'y'] {
        ActionKind::Copy
    } else if l == seq!['m', 'v'] || l == seq!['m', 'o', 'v', 'e'] {
        ActionKind::Move
    } else if l == seq!['r', 'm'] || l == seq!['d', 'e', 'l', 'e', 't', 'e'] {
        ActionKind::Delete
    } else if l == seq!['e', 'c', 'h', 'o'] {
        ActionKind::Echo
    } else if l == seq!['r', 'u', 'n'] {
        ActionKind::Run
    } else if l == seq!['i', 'n', 'p', 'u', 't'] {
        ActionKind::Input
    } else if l == seq!['n', 'u', 'm', 'b', 'e', 'r'] {
        ActionKind::Number
    } else if l == seq!['s', 'e', 'l', 'e', 'c', 't'] {
        ActionKind::Select
    } else if l == seq!['c', 'o', 'n', 'f', 'i', 'r', 'm'] {
        ActionKind::Confirm
    } else if l == seq!['e', 'd', 'i', 't', 'o', 'r'] {
        ActionKind::Editor
    } else if l == seq!['r', 'e', 'p', 'l', 'a', 'c', 'e'] {
        ActionKind::Replace
    } else {
        ActionKind::Unknown
    }
}

/// The kind of action that a node name names, ignoring ASCII case.
pub fn kind_of(name: &str) -> (r: ActionKind)
    ensures
        r == kind_spec(lower(name@)),
{
    let l = lower_chars(name);
    if same_chars(&l, &vec!['c', 'p']) || same_chars(&l, &vec!['c', 'o', 'p', 'y']) {
        ActionKind::Copy
    } else if same_chars(&l, &vec!['m', 'v']) || same_chars(&l, &vec!['m', 'o', 'v', 'e']) {
        ActionKind::Move
    } else if same_chars(&l, &vec!['r', 'm']) || same_chars(&l, &vec!['d', 'e', 'l', 'e', 't', 'e']) {
        ActionKind::Delete
    } else if same_chars(&l, &vec!['e', 'c', 'h', 'o']) {
        ActionKind::Echo
    } else if same_chars(&l, &vec!['r', 'u', 'n']) {
        ActionKind::Run
    } else if same_chars(&l, &vec!['i', 'n', 'p', 'u', 't']) {
        ActionKind::Input
    } else if same_chars(&l, &vec!['n', 'u', 'm', 'b', 'e', 'r']) {
        ActionKind::Number
    } else if same_chars(&l, &vec!['s', 'e', 'l', 'e', 'c', 't']) {
        ActionKind::Select
    } else if same_chars(&l, &vec!['c', 'o', 'n', 'f', 'i', 'r', 'm']) {
        ActionKind::Confirm
    } else if same_chars(&l, &vec!['e', 'd', 'i', 't', 'o', 'r']) {
        ActionKind::Editor
    } else if same_chars(&l, &vec!['r', 'e', 'p', 'l', 'a', 'c', 'e']) {
        ActionKind::Replace
    } else {
        ActionKind::Unknown
    }
}

pub open spec fn text_of(v: Option<Scalar>) -> Option<Seq<char>> {
    match v {
        Some(Scalar::Text(s)) => Some(s@),
        _ => None,
    }
}

pub open spec fn bool_of(v: Option<Scalar>) -> Option<bool> {
    match v {
        Some(Scalar::Boolean(b)) => Some(b),
        _ => None,
    }
}

pub open spec fn opt_view(v: Option<String>) -> Option<Seq<char>> {
    match v {
        Some(s) => Some(s@),
        None => None,
    }
}

fn scalar_text(v: Option<&Scalar>) -> (r: Option<String>)
    ensures
        opt_view(r) == text_of(match v { Some(x) => Some(*x), None => None }),
{
    match v {
        Some(Scalar::Text(s)) => Some(s.clone()),
        _ => None,
    }
}

fn scalar_bool(v: Option<&Scalar>) -> (r: Option<bool>)
    ensures
        r == bool_of(match v { Some(x) => Some(*x), None => None }),
{
    match v {
        Some(Scalar::Boolean(b)) => Some(*b),
        _ => None,
    }
}

/// The string argument at a position.
fn arg_text(node: &Node, idx: usize) -> (r: Option<String>)
    ensures
        opt_view(r) == text_of(arg_spec(*node, idx as nat)),
{
    scalar_text(arg(node, idx))
}

/// The string property of a key.
fn prop_text(node: &Node, key: &str) -> (r: Option<String>)
    ensures
        opt_view(r) == text_of(prop_spec(*node, key@)),
{
    scalar_text(prop(node, key))
}

/// The boolean property of a key.
fn prop_bool(node: &Node, key: &str) -> (r: Option<bool>)
    ensures
        r == bool_of(prop_spec(*node, key@)),
{
    scalar_bool(prop(node, key))
}

pub open spec fn or_true(b: Option<bool>) -> bool {
    match b {
        Some(v) => v,
        None => true,
    }
}

/// `s` is a string argument of the first `inject` child.
pub open spec fn inject_arg(ch: Seq<Node>, s: Seq<char>) -> bool {
    child_spec(ch, "inject"@) matches Some(c) && exists|k: int|
        0 <= k < c.entries@.len() && c.entries@[k].name is None && #[trigger] text_of(Some(c.entries@[k].value)) == Some(s)
}

/// The injected names: absent without children, else the string arguments of
/// the first `inject` child, each once.
pub open spec fn injects_ok(node: Node, inj: Option<Vec<String>>) -> bool {
    match node.children {
        None => inj is None,
        Some(ch) => inj matches Some(v) && string_views(v@).no_duplicates()
            && forall|s: Seq<char>| #[trigger] string_views(v@).contains(s) <==> inject_arg(ch@, s),
    }
}

fn injects_of(node: &Node) -> (r: Option<Vec<String>>)
    ensures
        injects_ok(*node, r),
{
    match &node.children {
        None => None,
        Some(ch) => {
            let mut v: Vec<String> = Vec::new();
            match child(ch, "inject") {
                None => {},
                Some(c) => {
                    let mut k: usize = 0;
                    while k < c.entries.len()
                        invariant
                            k <= c.entries@.len(),
                            string_views(v@).no_duplicates(),
                            forall|s: Seq<char>| #[trigger] string_views(v@).contains(s) <==> exists|j: int|
                                0 <= j < k && c.entries@[j].name is None && #[trigger] text_of(Some(c.entries@[j].value)) == Some(s),
                        decreases c.entries.len() - k,
                    {
                        let e = &c.entries[k];
                        let ghost before = v@;
                        if e.name.is_none() {
                            if let Scalar::Text(t) = &e.value {
                                push_unique(&mut v, t.clone());
                            }
                        }
                        proof {
                            let ek = c.entries@[k as int];
                            assert forall|s: Seq<char>| #[trigger] string_views(v@).contains(s) <==> exists|j: int|
                                0 <= j < k + 1 && c.entries@[j].name is None && #[trigger] text_of(Some(c.entries@[j].value)) == Some(s) by {
                                let hit = ek.name is None && text_of(Some(ek.value)) == Some(s);
                                assert(string_views(v@).contains(s) <==> (string_views(before).contains(s) || hit));
                                if string_views(before).contains(s) {
                                    let j = choose|j: int| 0 <= j < k && c.entries@[j].name is None && #[trigger] text_of(Some(c.entries@[j].value)) == Some(s);
                                    assert(0 <= j < k + 1);
                                }
                                if exists|j: int| 0 <= j < k + 1 && c.entries@[j].name is None && #[trigger] text_of(Some(c.entries@[j].value)) == Some(s) {
                                    let j = choose|j: int| 0 <= j < k + 1 && c.entries@[j].name is None && #[trigger] text_of(Some(c.entries@[j].value)) == Some(s);
                                    if j < k {
                                        assert(string_views(before).contains(s));
                                    }
                                }
                            }
                        }
                        k = k + 1;
                    }
                },
            }
            Some(v)
        },
    }
}

/// The names that a replace node lists: the names of its children, each once.
pub open spec fn replacements_ok(node: Node, v: Vec<String>) -> bool {
    &&& string_views(v@).no_duplicates()
    &&& forall|s: Seq<char>| #[trigger] string_views(v@).contains(s) <==> (node.children matches Some(ch)
        && exists|k: int| 0 <= k < ch@.len() && ch@[k].name@ == s)
}

fn replacements_of(node: &Node) -> (r: Vec<String>)
    ensures
        replacements_ok(*node, r),
{
    let mut v: Vec<String> = Vec::new();
    if let Some(ch) = &node.children {
        let mut k: usize = 0;
        while k < ch.len()
            invariant
                k <= ch@.len(),
                node.children == Some(*ch),
                string_views(v@).no_duplicates(),
                forall|s: Seq<char>| #[trigger] string_views(v@).contains(s) <==> exists|j: int| 0 <= j < k && ch@[j].name@ == s,
            decreases ch.len() - k,
        {
            push_unique(&mut v, ch[k].name.clone());
            proof {
                assert forall|s: Seq<char>| #[trigger] string_views(v@).contains(s) <==> exists|j: int| 0 <= j < k + 1 && ch@[j].name@ == s by {
                    if exists|j: int| 0 <= j < k + 1 && ch@[j].name@ == s {
                        let j = choose|j: int| 0 <= j < k + 1 && ch@[j].name@ == s;
                        if j < k {
                            assert(exists|j2: int| 0 <= j2 < k && ch@[j2].name@ == s);
                        }
                    }
                }
            }
            k = k + 1;
        }
    }
    v
}

/// The first problem of a prompt node, in the order the fields are read:
/// children, name, hint, and for a select prompt its options.
pub open spec fn prompt_problem(node: Node, select: bool) -> Option<Problem> {
    match node.children {
        None => Some(Problem::MissingChildren(node.span)),
        Some(ch) => if text_of(arg_spec(node, 0)) is None {
            Some(Problem::MissingArgument(node.name_span))
        } else {
            match child_spec(ch@, "hint"@) {
                None => Some(Problem::MissingHint(node.span)),
                Some(h) => if text_of(arg_spec(h, 0)) is None {
                    Some(Problem::MissingArgument(h.name_span))
                } else if select {
                    match child_spec(ch@, "options"@) {
                        None => Some(Problem::MissingOptions(node.span)),
                        Some(o) => options_problem(o.entries@),
                    }
                } else {
                    None
                },
            }
        },
    }
}

/// Select options are strings, integers or decimals.
pub open spec fn option_ok(v: Scalar) -> bool {
    v is Text || v is Integer || v is Decimal
}

/// The text that a select option is offered as.
pub open spec fn option_text(v: Scalar) -> Seq<char> {
    match v {
        Scalar::Text(s) => s@,
        Scalar::Integer(i) => decimal(i as int),
        Scalar::Decimal(t) => t@,
        _ => Seq::empty(),
    }
}

/// The first entry of the options node that is of another type.
pub open spec fn options_problem(entries: Seq<Entry>) -> Option<Problem> {
    if exists|k: int| 0 <= k < entries.len() && !option_ok(#[trigger] entries[k].value) {
        let k = choose|k: int| 0 <= k < entries.len() && !option_ok(#[trigger] entries[k].value)
            && forall|j: int| 0 <= j < k ==> option_ok(#[trigger] entries[j].value);
        Some(Problem::InvalidOptionType(entries[k].span))
    } else {
        None
    }
}

/// The first problem of an action node, if any.
pub open spec fn single_problem(node: Node) -> Option<Problem> {
    match kind_spec(lower(node.name@)) {
        ActionKind::Copy | ActionKind::Move => if text_of(prop_spec(node, "from"@)) is None {
            Some(Problem::MissingAttribute("from"@, node.span))
        } else if text_of(prop_spec(node, "to"@)) is None {
            Some(Problem::MissingAttribute("to"@, node.span))
        } else {
            None
        },
        ActionKind::Delete | ActionKind::Echo | ActionKind::Run => if text_of(arg_spec(node, 0)) is None {
            Some(Problem::MissingArgument(node.name_span))
        } else {
            None
        },
        ActionKind::Input | ActionKind::Number | ActionKind::Confirm | ActionKind::Editor => prompt_problem(node, false),
        ActionKind::Select => prompt_problem(node, true),
        ActionKind::Replace | ActionKind::Unknown => None,
    }
}

/// Name and hint of a prompt, as its node gives them.
pub open spec fn prompt_fields(node: Node, name: String, hint: String) -> bool {
    &&& Some(name@) == text_of(arg_spec(node, 0))
    &&& node.children matches Some(ch) && child_spec(ch@, "hint"@) matches Some(h)
        && Some(hint@) == text_of(arg_spec(h, 0))
}

/// The argument of the first `default` child.
pub open spec fn default_of(node: Node) -> Option<Scalar> {
    match node.children {
        Some(ch) => match child_spec(ch@, "default"@) {
            Some(d) => arg_spec(d, 0),
            None => None,
        },
        None => None,
    }
}

/// A number default read from a value: an integer, or a decimal.
pub open spec fn number_ok(n: Option<Number>, v: Option<Scalar>) -> bool {
    match n {
        Some(Number::Integer(i)) => v == Some(Scalar::Integer(i)),
        Some(Number::Float(t)) => v matches Some(Scalar::Decimal(u)) && t@ == u@,
        None => !(v matches Some(Scalar::Integer(_))) && !(v matches Some(Scalar::Decimal(_))),
    }
}

/// The options of a select prompt: each entry of its `options` child, as text.
pub open spec fn options_ok(node: Node, options: Vec<String>) -> bool {
    node.children matches Some(ch) && child_spec(ch@, "options"@) matches Some(o)
        && options@.len() == o.entries@.len()
        && forall|k: int| 0 <= k < options@.len() ==> (#[trigger] options@[k])@ == option_text(o.entries@[k].value)
}

/// What a node compiles to when it has no problem.
pub open spec fn single_ok(node: Node, a: ActionSingle) -> bool {
    match kind_spec(lower(node.name@)) {
        ActionKind::Copy => a matches ActionSingle::Copy(c)
            && Some(c.from@) == text_of(prop_spec(node, "from"@))
            && Some(c.to@) == text_of(prop_spec(node, "to"@))
            && c.overwrite == or_true(bool_of(prop_spec(node, "overwrite"@))),
        ActionKind::Move => a matches ActionSingle::Move(c)
            && Some(c.from@) == text_of(prop_spec(node, "from"@))
            && Some(c.to@) == text_of(prop_spec(node, "to"@))
            && c.overwrite == or_true(bool_of(prop_spec(node, "overwrite"@))),
        ActionKind::Delete => a matches ActionSingle::Delete(d) && Some(d.target@) == text_of(arg_spec(node, 0)),
        ActionKind::Echo => a matches ActionSingle::Echo(e)
            && Some(e.message@) == text_of(arg_spec(node, 0))
            && injects_ok(node, e.injects)
            && e.trim == or_true(bool_of(prop_spec(node, "trim"@))),
        ActionKind::Run => a matches ActionSingle::Run(r)
            && opt_view(r.name) == text_of(prop_spec(node, "name"@))
            && Some(r.command@) == text_of(arg_spec(node, 0))
            && injects_ok(node, r.injects),
        ActionKind::Input => a matches ActionSingle::Prompt(Prompt::Input(p))
            && prompt_fields(node, p.name, p.hint) && opt_view(p.default) == text_of(default_of(node)),
        ActionKind::Editor => a matches ActionSingle::Prompt(Prompt::Editor(p))
            && prompt_fields(node, p.name, p.hint) && opt_view(p.default) == text_of(default_of(node)),
        ActionKind::Number => a matches ActionSingle::Prompt(Prompt::Number(p))
            && prompt_fields(node, p.name, p.hint) && number_ok(p.default, default_of(node)),
        ActionKind::Confirm => a matches ActionSingle::Prompt(Prompt::Confirm(p))
            && prompt_fields(node, p.name, p.hint) && p.default == bool_of(default_of(node)),
        ActionKind::Select => a matches ActionSingle::Prompt(Prompt::Select(p))
            && prompt_fields(node, p.name, p.hint) && options_ok(node, p.options),
        ActionKind::Replace => a matches ActionSingle::Replace(r)
            && replacements_ok(node, r.replacements)
            && opt_view(r.glob) == text_of(prop_spec(node, "in"@)),
        ActionKind::Unknown => a matches ActionSingle::Unknown(u) && u.name@ == lower(node.name@),
    }
}

fn option_value(v: &Scalar) -> (r: Option<String>)
    ensures
        r matches Some(t) ==> option_ok(*v) && t@ == option_text(*v),
        r is None ==> !option_ok(*v),
{
    match v {
        Scalar::Text(s) => Some(s.clone()),
        Scalar::Integer(i) => Some(crate::value::Value::Number(Number::Integer(*i)).render()),
        Scalar::Decimal(t) => Some(t.clone()),
        _ => None,
    }
}

fn select_options(o: &Node) -> (r: Result<Vec<String>, ConfigError>)
    ensures
        r matches Ok(v) ==> options_problem(o.entries@) is None && v@.len() == o.entries@.len()
            && forall|k: int| 0 <= k < v@.len() ==> (#[trigger] v@[k])@ == option_text(o.entries@[k].value),
        r matches Err(e) ==> options_problem(o.entries@) == Some(e.problem()),
{
    let mut out: Vec<String> = Vec::new();
    let mut k: usize = 0;
    while k < o.entries.len()
        invariant
            k <= o.entries@.len(),
            out@.len() == k,
            forall|j: int| 0 <= j < k ==> option_ok(#[trigger] o.entries@[j].value),
            forall|j: int| 0 <= j < k ==> (#[trigger] out@[j])@ == option_text(o.entries@[j].value),
        decreases o.entries.len() - k,
    {
        match option_value(&o.entries[k].value) {
            Some(t) => {
                out.push(t);
            },
            None => {
                proof {
                    let entries = o.entries@;
                    assert(!option_ok(entries[k as int].value));
                    let c = choose|c: int| 0 <= c < entries.len() && !option_ok(#[trigger] entries[c].value)
                        && forall|j: int| 0 <= j < c ==> option_ok(#[trigger] entries[j].value);
                    assert(c == k) by {
                        if c < k { assert(option_ok(entries[c].value)); }
                        if c > k { assert(option_ok(entries[k as int].value)); }
                    }
                }
                return Err(ConfigError::InvalidOptionType { at: o.entries[k].span });
            },
        }
        k = k + 1;
    }
    Ok(out)
}

fn default_child(ch: &Vec<Node>) -> (r: Option<&Scalar>)
    ensures
        (match r { Some(v) => Some(*v), None => None }) == (match child_spec(ch@, "default"@) {
            Some(d) => arg_spec(d, 0),
            None => None,
        }),
{
    match child(ch, "default") {
        Some(d) => arg(d, 0),
        None => None,
    }
}

/// Reads name and hint of a prompt node, in that order.
fn prompt_head(node: &Node) -> (r: Result<(String, String), ConfigError>)
    ensures
        r matches Ok((name, hint)) ==> node.children is Some && text_of(arg_spec(*node, 0)) is Some
            && prompt_fields(*node, name, hint)
            && prompt_problem(*node, false) is None,
        r matches Err(e) ==> prompt_problem(*node, false) == Some(e.problem())
            && prompt_problem(*node, true) == Some(e.problem()),
{
    match &node.children {
        None => Err(ConfigError::MissingChildren { at: node.span }),
        Some(ch) => {
            let name = match arg_text(node, 0) {
                Some(n) => n,
                None => {
                    return Err(ConfigError::MissingArgument { at: node.name_span });
                },
            };
            match child(ch, "hint") {
                None => Err(ConfigError::MissingHint { at: node.span }),
                Some(h) => match arg_text(h, 0) {
                    None => Err(ConfigError::MissingArgument { at: h.name_span }),
                    Some(hint) => Ok((name, hint)),
                },
            }
        },
    }
}

/// Compiles one action node.
pub fn compile_single(node: &Node) -> (r: Result<ActionSingle, ConfigError>)
    ensures
        r matches Ok(a) ==> single_problem(*node) is None && single_ok(*node, a),
        r matches Err(e) ==> single_problem(*node) == Some(e.problem()),
{
    let kind = kind_of(node.name.as_str());
    match kind {
        ActionKind::Copy | ActionKind::Move => {
            let from = match prop_text(node, "from") {
                Some(f) => f,
                None => {
                    return Err(ConfigError::MissingAttribute { key: "from".to_owned(), at: node.span });
                },
            };
            let to = match prop_text(node, "to") {
                Some(t) => t,
                None => {
                    return Err(ConfigError::MissingAttribute { key: "to".to_owned(), at: node.span });
                },
            };
            let overwrite = match prop_bool(node, "overwrite") {
                Some(b) => b,
                None => true,
            };
            if kind == ActionKind::Copy {
                Ok(ActionSingle::Copy(crate::actions::Copy { from, to, overwrite }))
            } else {
                Ok(ActionSingle::Move(Move { from, to, overwrite }))
            }
        },
        ActionKind::Delete | ActionKind::Echo | ActionKind::Run => {
            let first = match arg_text(node, 0) {
                Some(t) => t,
                None => {
                    return Err(ConfigError::MissingArgument { at: node.name_span });
                },
            };
            if kind == ActionKind::Delete {
                Ok(ActionSingle::Delete(Delete { target: first }))
            } else if kind == ActionKind::Echo {
                let trim = match prop_bool(node, "trim") {
                    Some(b) => b,
                    None => true,
                };
                Ok(ActionSingle::Echo(Echo { message: first, injects: injects_of(node), trim }))
            } else {
                Ok(ActionSingle::Run(Run { name: prop_text(node, "name"), command: first, injects: injects_of(node) }))
            }
        },
        ActionKind::Input | ActionKind::Number | ActionKind::Confirm | ActionKind::Editor | ActionKind::Select => {
            let (name, hint) = prompt_head(node)?;
            let ch = match &node.children {
                Some(c) => c,
                None => {
                    return Err(ConfigError::MissingChildren { at: node.span });
                },
            };
            let default = default_child(ch);
            if kind == ActionKind::Input {
                Ok(ActionSingle::Prompt(Prompt::Input(InputPrompt { name, hint, default: scalar_text(default) })))
            } else if kind == ActionKind::Editor {
                Ok(ActionSingle::Prompt(Prompt::Editor(EditorPrompt { name, hint, default: scalar_text(default) })))
            } else if kind == ActionKind::Confirm {
                Ok(ActionSingle::Prompt(Prompt::Confirm(ConfirmPrompt { name, hint, default: scalar_bool(default) })))
            } else if kind == ActionKind::Number {
                let n = match default {
                    Some(Scalar::Integer(i)) => Some(Number::Integer(*i)),
                    Some(Scalar::Decimal(t)) => Some(Number::Float(t.clone())),
                    _ => None,
                };
                Ok(ActionSingle::Prompt(Prompt::Number(NumberPrompt { name, hint, default: n })))
            } else {
                match child(ch, "options") {
                    None => Err(ConfigError::MissingOptions { at: node.span }),
                    Some(o) => {
                        let options = select_options(o)?;
                        Ok(ActionSingle::Prompt(Prompt::Select(SelectPrompt { name, hint, options })))
                    },
                }
            }
        },
        ActionKind::Replace => {
            Ok(ActionSingle::Replace(Replace { replacements: replacements_of(node), glob: prop_text(node, "in") }))
        },
        ActionKind::Unknown => {
            let l = lower_chars(node.name.as_str());
            Ok(ActionSingle::Unknown(Unknown { name: crate::text::from_chars(&l) }))
        },
    }
}

/// The first problem among a list of action nodes.
pub open spec fn list_problem(nodes: Seq<Node>) -> Option<Problem> {
    if exists|i: int| 0 <= i < nodes.len() && #[trigger] single_problem(nodes[i]) is Some {
        let i = choose|i: int| 0 <= i < nodes.len() && #[trigger] single_problem(nodes[i]) is Some
            && forall|j: int| 0 <= j < i ==> #[trigger] single_problem(nodes[j]) is None;
        single_problem(nodes[i])
    } else {
        None
    }
}

/// Compiles a list of action nodes, stopping at the first problem.
pub fn compile_list(nodes: &Vec<Node>) -> (r: Result<Vec<ActionSingle>, ConfigError>)
    ensures
        r matches Ok(v) ==> list_problem(nodes@) is None && v@.len() == nodes@.len()
            && forall|i: int| 0 <= i < v@.len() ==> single_ok(nodes@[i], #[trigger] v@[i]),
        r matches Err(e) ==> list_problem(nodes@) == Some(e.problem()),
{
    let mut out: Vec<ActionSingle> = Vec::new();
    let mut k: usize = 0;
    while k < nodes.len()
        invariant
            k <= nodes@.len(),
            out@.len() == k,
            forall|j: int| 0 <= j < k ==> #[trigger] single_problem(nodes@[j]) is None,
            forall|j: int| 0 <= j < k ==> single_ok(nodes@[j], #[trigger] out@[j]),
        decreases nodes.len() - k,
    {
        match compile_single(&nodes[k]) {
            Ok(a) => {
                out.push(a);
            },
            Err(e) => {
                proof {
                    let ns = nodes@;
                    let i = choose|i: int| 0 <= i < ns.len() && #[trigger] single_problem(ns[i]) is Some
                        && forall|j: int| 0 <= j < i ==> #[trigger] single_problem(ns[j]) is None;
                    assert(i == k) by {
                        if i < k { assert(single_problem(ns[i]) is None); }
                        if i > k { assert(single_problem(ns[k as int]) is None); }
                    }
                }
                return Err(e);
            },
        }
        k = k + 1;
    }
    Ok(out)
}

pub open spec fn children_of(node: Node) -> Seq<Node> {
    match node.children {
        Some(ch) => ch@,
        None => Seq::empty(),
    }
}

/// The first problem of a suite node: its name, then its actions.
pub open spec fn suite_problem(node: Node) -> Option<Problem> {
    if text_of(arg_spec(node, 0)) is None {
        Some(Problem::MissingArgument(node.name_span))
    } else {
        list_problem(children_of(node))
    }
}

/// The required names of a suite: the words of its `requires` attribute.
pub open spec fn requirements_spec(node: Node) -> Seq<Seq<char>> {
    match text_of(prop_spec(node, "requires"@)) {
        Some(t) => words(t),
        None => Seq::empty(),
    }
}

/// What a suite node compiles to when it has no problem.
pub open spec fn suite_ok(node: Node, s: ActionSuite) -> bool {
    &&& Some(s.name@) == text_of(arg_spec(node, 0))
    &&& string_views(s.requirements@) == requirements_spec(node)
    &&& s.actions@.len() == children_of(node).len()
    &&& forall|i: int| 0 <= i < s.actions@.len() ==> single_ok(children_of(node)[i], #[trigger] s.actions@[i])
}

/// Compiles a suite node.
pub fn compile_suite(node: &Node) -> (r: Result<ActionSuite, ConfigError>)
    ensures
        r matches Ok(s) ==> suite_problem(*node) is None && suite_ok(*node, s),
        r matches Err(e) ==> suite_problem(*node) == Some(e.problem()),
{
    let name = match arg_text(node, 0) {
        Some(n) => n,
        None => {
            return Err(ConfigError::MissingArgument { at: node.name_span });
        },
    };
    let requirements = match prop_text(node, "requires") {
        Some(t) => split_words(t.as_str()),
        None => {
            let v: Vec<String> = Vec::new();
            assert(string_views(v@) =~= Seq::<Seq<char>>::empty());
            v
        },
    };
    let actions = match &node.children {
        Some(ch) => compile_list(ch)?,
        None => {
            proof {
                assert(children_of(*node) =~= Seq::<Node>::empty());
            }
            Vec::new()
        },
    };
    Ok(ActionSuite { name, actions, requirements })
}

/// Suites are the nodes named exactly `suite`.
pub open spec fn is_suite_node(n: Node) -> bool {
    n.name@ == "suite"@
}

/// The first problem among suite nodes.
pub open spec fn suites_problem(nodes: Seq<Node>) -> Option<Problem> {
    if exists|i: int| 0 <= i < nodes.len() && #[trigger] suite_problem(nodes[i]) is Some {
        let i = choose|i: int| 0 <= i < nodes.len() && #[trigger] suite_problem(nodes[i]) is Some
            && forall|j: int| 0 <= j < i ==> #[trigger] suite_problem(nodes[j]) is None;
        suite_problem(nodes[i])
    } else {
        None
    }
}

pub open spec fn all_suites(nodes: Seq<Node>) -> bool {
    forall|i: int| 0 <= i < nodes.len() ==> is_suite_node(#[trigger] nodes[i])
}

pub open spec fn no_suites(nodes: Seq<Node>) -> bool {
    forall|i: int| 0 <= i < nodes.len() ==> !is_suite_node(#[trigger] nodes[i])
}

/// The nodes of the actions block: the children of the first `actions` node.
pub open spec fn actions_block(doc: Seq<Node>) -> Option<Seq<Node>> {
    match child_spec(doc, "actions"@) {
        Some(a) => match a.children {
            Some(ch) => Some(ch@),
            None => None,
        },
        None => None,
    }
}

/// The first problem of the actions block: a mix of suites and single
/// actions, or the first problem of what it holds.
pub open spec fn actions_problem(doc: Seq<Node>) -> Option<Problem> {
    match actions_block(doc) {
        None => None,
        Some(ns) => if all_suites(ns) {
            suites_problem(ns)
        } else if no_suites(ns) {
            list_problem(ns)
        } else {
            Some(Problem::MixedActions)
        },
    }
}

/// What the actions block compiles to when it has no problem.
pub open spec fn actions_ok(doc: Seq<Node>, a: Actions) -> bool {
    match actions_block(doc) {
        None => a is Empty,
        Some(ns) => if all_suites(ns) {
            a matches Actions::Suite(v) && v@.len() == ns.len()
                && forall|i: int| 0 <= i < v@.len() ==> suite_ok(ns[i], #[trigger] v@[i])
        } else {
            a matches Actions::Flat(v) && v@.len() == ns.len()
                && forall|i: int| 0 <= i < v@.len() ==> single_ok(ns[i], #[trigger] v@[i])
        },
    }
}

fn is_suite(n: &Node) -> (r: bool)
    ensures
        r == is_suite_node(*n),
{
    let v = crate::text::to_chars(n.name.as_str());
    let r = same_chars(&v, &vec!['s', 'u', 'i', 't', 'e']);
    proof {
        reveal_strlit("suite");
        assert(seq!['s', 'u', 'i', 't', 'e'] =~= "suite"@);
    }
    r
}

/// Compiles the actions block of a document.
pub fn compile_actions(doc: &Vec<Node>) -> (r: Result<Actions, ConfigError>)
    ensures
        r matches Ok(a) ==> actions_problem(doc@) is None && actions_ok(doc@, a),
        r matches Err(e) ==> actions_problem(doc@) == Some(e.problem()),
{
    let block = match child(doc, "actions") {
        None => {
            return Ok(Actions::Empty);
        },
        Some(a) => match &a.children {
            None => {
                return Ok(Actions::Empty);
            },
            Some(ch) => ch,
        },
    };
    let mut suites: usize = 0;
    let mut k: usize = 0;
    while k < block.len()
        invariant
            k <= block@.len(),
            actions_block(doc@) == Some(block@),
            suites <= k,
            suites == k ==> all_suites(block@.take(k as int)),
            suites == 0 ==> no_suites(block@.take(k as int)),
            0 < suites < k ==> !all_suites(block@) && !no_suites(block@),
        decreases block.len() - k,
    {
        proof {
            assert(block@.take(k + 1).drop_last() =~= block@.take(k as int));
        }
        if is_suite(&block[k]) {
            proof {
                if suites == 0 && k > 0 {
                    assert(!is_suite_node(block@.take(k as int)[0]));
                    assert(!no_suites(block@) && !all_suites(block@)) by {
                        assert(is_suite_node(block@[k as int]));
                        assert(!is_suite_node(block@[0]));
                    }
                }
                if 0 < suites && suites < k {
                }
            }
            suites = suites + 1;
        } else {
            proof {
                if suites == k && k > 0 {
                    assert(is_suite_node(block@.take(k as int)[0]));
                    assert(!no_suites(block@) && !all_suites(block@)) by {
                        assert(!is_suite_node(block@[k as int]));
                        assert(is_suite_node(block@[0]));
                    }
                }
            }
        }
        k = k + 1;
    }
    assert(block@.take(k as int) =~= block@);
    if suites == block.len() {
        let mut out: Vec<ActionSuite> = Vec::new();
        let mut i: usize = 0;
        while i < block.len()
            invariant
                i <= block@.len(),
                actions_block(doc@) == Some(block@),
                all_suites(block@),
                out@.len() == i,
                forall|j: int| 0 <= j < i ==> #[trigger] suite_problem(block@[j]) is None,
                forall|j: int| 0 <= j < i ==> suite_ok(block@[j], #[trigger] out@[j]),
            decreases block.len() - i,
        {
            match compile_suite(&block[i]) {
                Ok(s) => {
                    out.push(s);
                },
                Err(e) => {
                    proof {
                        let ns = block@;
                        let c = choose|c: int| 0 <= c < ns.len() && #[trigger] suite_problem(ns[c]) is Some
                            && forall|j: int| 0 <= j < c ==> #[trigger] suite_problem(ns[j]) is None;
                        assert(c == i) by {
                            if c < i { assert(suite_problem(ns[c]) is None); }
                            if c > i { assert(suite_problem(ns[i as int]) is None); }
                        }
                    }
                    return Err(e);
                },
            }
            i = i + 1;
        }
        assert(suites_problem(block@) is None);
        Ok(Actions::Suite(out))
    } else if suites == 0 {
        assert(!is_suite_node(block@[0]));
        assert(!all_suites(block@));
        let v = compile_list(block)?;
        Ok(Actions::Flat(v))
    } else {
        Err(ConfigError::MixedActions)
    }
}

/// The `delete` option after the first `k` option nodes: each `delete` node
/// sets it from its boolean argument, or is a problem without one; other
/// nodes are ignored.
pub open spec fn options_scan(ns: Seq<Node>, k: int) -> Result<bool, Span>
    decreases k,
{
    if k <= 0 || k > ns.len() {
        Ok(true)
    } else {
        match options_scan(ns, k - 1) {
            Err(sp) => Err(sp),
            Ok(b) => if lower(ns[k - 1].name@) == seq!['d', 'e', 'l', 'e', 't', 'e'] {
                match bool_of(arg_spec(ns[k - 1], 0)) {
                    Some(v) => Ok(v),
                    None => Err(ns[k - 1].span),
                }
            } else {
                Ok(b)
            },
        }
    }
}

/// The `delete` option of a document, from the children of its first
/// `options` node; `true` when it sets none.
pub open spec fn options_spec(doc: Seq<Node>) -> Result<bool, Span> {
    match child_spec(doc, "options"@) {
        Some(o) => match o.children {
            Some(ch) => options_scan(ch@, ch@.len() as int),
            None => Ok(true),
        },
        None => Ok(true),
    }
}

/// Reads the options of a document.
pub fn compile_options(doc: &Vec<Node>) -> (r: Result<ConfigOptions, ConfigError>)
    ensures
        match options_spec(doc@) {
            Ok(b) => r matches Ok(o) && o.delete == b,
            Err(sp) => r matches Err(e) && e.problem() == Problem::MissingBoolean(sp),
        },
{
    let ch = match child(doc, "options") {
        None => {
            return Ok(ConfigOptions::new());
        },
        Some(o) => match &o.children {
            None => {
                return Ok(ConfigOptions::new());
            },
            Some(ch) => ch,
        },
    };
    let mut delete = true;
    let mut k: usize = 0;
    while k < ch.len()
        invariant
            k <= ch@.len(),
            options_spec(doc@) == options_scan(ch@, ch@.len() as int),
            options_scan(ch@, k as int) == Ok::<bool, Span>(delete),
        decreases ch.len() - k,
    {
        let l = lower_chars(ch[k].name.as_str());
        if same_chars(&l, &vec!['d', 'e', 'l', 'e', 't', 'e']) {
            match scalar_bool(arg(&ch[k], 0)) {
                Some(b) => {
                    delete = b;
                },
                None => {
                    proof {
                        lemma_options_scan_stops(ch@, k as int + 1, ch@.len() as int);
                    }
                    return Err(ConfigError::MissingBoolean { at: ch[k].span });
                },
            }
        }
        k = k + 1;
    }
    Ok(ConfigOptions { delete })
}

proof fn lemma_options_scan_stops(ns: Seq<Node>, a: int, b: int)
    requires
        0 < a <= b <= ns.len(),
        options_scan(ns, a) is Err,
    ensures
        options_scan(ns, b) == options_scan(ns, a),
    decreases b - a,
{
    if a < b {
        lemma_options_scan_stops(ns, a, b - 1);
    }
}

/// A whole document compiled: its options, and its actions.
pub open spec fn compiled_ok(doc: Seq<Node>, o: ConfigOptions, a: Actions) -> bool {
    options_spec(doc) == Ok::<bool, Span>(o.delete) && actions_ok(doc, a)
}

/// The first problem of a document: in its options, then in its actions.
pub open spec fn document_problem(doc: Seq<Node>) -> Option<Problem> {
    match options_spec(doc) {
        Err(sp) => Some(Problem::MissingBoolean(sp)),
        Ok(_) => actions_problem(doc),
    }
}

/// Compiles a document into its options and actions, or the first problem
/// found, with the span to point at.
pub fn compile(doc: &crate::document::Document) -> (r: Result<(ConfigOptions, Actions), ConfigError>)
    ensures
        r matches Ok((o, a)) ==> document_problem(doc.nodes@) is None && compiled_ok(doc.nodes@, o, a),
        r matches Err(e) ==> document_problem(doc.nodes@) == Some(e.problem()),
{
    let options = compile_options(&doc.nodes)?;
    let actions = compile_actions(&doc.nodes)?;
    Ok((options, actions))
}

/// An actions block that holds both a suite and a single action is refused
/// with the mixed-actions problem, whatever else it holds.
pub proof fn law_mixed_actions_rejected(doc: Seq<Node>, i: int, j: int)
    requires
        actions_block(doc) matches Some(ns) && 0 <= i < ns.len() && 0 <= j < ns.len()
            && is_suite_node(ns[i]) && !is_suite_node(ns[j]),
    ensures
        actions_problem(doc) == Some(Problem::MixedActions),
        options_spec(doc) is Ok ==> document_problem(doc) == Some(Problem::MixedActions),
{
    let ns = actions_block(doc)->0;
    assert(!all_suites(ns));
    assert(!no_suites(ns));
}

/// A replacement that a document declares: a tag, and what it is for.
#[derive(Debug)]
pub struct Replacement {
    pub tag: String,
    /// The node's string argument; the tag when there is none.
    pub description: String,
}

impl Replacement {
    /// The replacement that a node declares.
    pub fn from_node(node: &Node) -> (r: Replacement)
        ensures
            r.tag@ == node.name@,
            r.description@ == match text_of(arg_spec(*node, 0)) {
                Some(d) => d,
                None => node.name@,
            },
    {
        let tag = node.name.clone();
        let description = match arg_text(node, 0) {
            Some(d) => d,
            None => tag.clone(),
        };
        Replacement { tag, description }
    }
}

} // verus!
