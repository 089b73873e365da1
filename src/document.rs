//! A parsed configuration document: named nodes with positional arguments,
//! keyed properties, optional children and source spans.
use vstd::prelude::*;
use crate::text::same_text;

verus! {

/// A region of the source text.
#[derive(Clone, Copy, Debug, PartialEq, Eq, Structural)]
pub struct Span {
    pub offset: usize,
    pub len: usize,
}

/// A value written in the document.
#[derive(Debug)]
pub enum Scalar {
    Text(String),
    Integer(i64),
    /// A floating-point number, as the text it is written back as.
    Decimal(String),
    Boolean(bool),
    Null,
}

/// An argument (no name) or a property (a name) of a node.
#[derive(Debug)]
pub struct Entry {
    pub name: Option<String>,
    pub value: Scalar,
    pub span: Span,
}

/// A node: its name, entries in written order, children, and spans.
#[derive(Debug)]
pub struct Node {
    pub name: String,
    /// Span of the node's name.
    pub name_span: Span,
    pub entries: Vec<Entry>,
    pub children: Option<Vec<Node>>,
    /// Span of the whole node.
    pub span: Span,
}

/// A whole document: its top-level nodes.
#[derive(Debug)]
pub struct Document {
    pub nodes: Vec<Node>,
}

/// Number of arguments (entries without a name) among the first `k` entries.
pub open spec fn args_before(entries: Seq<Entry>, k: int) -> nat
    decreases k,
{
    if k <= 0 || k > entries.len() {
        0
    } else {
        args_before(entries, k - 1) + (if entries[k - 1].name is None { 1nat } else { 0nat })
    }
}

/// The entry that holds the `idx`-th argument.
pub open spec fn is_arg_at(entries: Seq<Entry>, idx: nat, k: int) -> bool {
    0 <= k < entries.len() && entries[k].name is None && args_before(entries, k) == idx
}

/// An entry that is a property named `key`.
pub open spec fn named(e: Entry, key: Seq<char>) -> bool {
    e.name matches Some(n) && n@ == key
}

/// The entry that a property `key` resolves to: the last one of that name.
pub open spec fn is_prop_at(entries: Seq<Entry>, key: Seq<char>, k: int) -> bool {
    &&& 0 <= k < entries.len()
    &&& named(entries[k], key)
    &&& forall|l: int| k < l < entries.len() ==> !#[trigger] named(entries[l], key)
}

/// The `idx`-th argument of a node.
pub open spec fn arg_spec(node: Node, idx: nat) -> Option<Scalar> {
    if exists|k: int| is_arg_at(node.entries@, idx, k) {
        Some(node.entries@[choose|k: int| is_arg_at(node.entries@, idx, k)].value)
    } else {
        None
    }
}

/// The property `key` of a node.
pub open spec fn prop_spec(node: Node, key: Seq<char>) -> Option<Scalar> {
    if exists|k: int| is_prop_at(node.entries@, key, k) {
        Some(node.entries@[choose|k: int| is_prop_at(node.entries@, key, k)].value)
    } else {
        None
    }
}

/// The first node named `name`.
pub open spec fn is_first_named(nodes: Seq<Node>, name: Seq<char>, k: int) -> bool {
    &&& 0 <= k < nodes.len()
    &&& nodes[k].name@ == name
    &&& forall|l: int| 0 <= l < k ==> nodes[l].name@ != name
}

pub open spec fn child_spec(nodes: Seq<Node>, name: Seq<char>) -> Option<Node> {
    if exists|k: int| is_first_named(nodes, name, k) {
        Some(nodes[choose|k: int| is_first_named(nodes, name, k)])
    } else {
        None
    }
}

proof fn lemma_arg_unique(entries: Seq<Entry>, idx: nat, a: int, b: int)
    requires
        is_arg_at(entries, idx, a),
        is_arg_at(entries, idx, b),
    ensures
        a == b,
{
    if a < b {
        lemma_args_grow(entries, a + 1, b);
    } else if b < a {
        lemma_args_grow(entries, b + 1, a);
    }
}

proof fn lemma_args_grow(entries: Seq<Entry>, a: int, b: int)
    requires
        0 < a <= b <= entries.len(),
        entries[a - 1].name is None,
    ensures
        args_before(entries, b) >= args_before(entries, a - 1) + 1,
    decreases b - a,
{
    if a < b {
        lemma_args_grow(entries, a, b - 1);
    }
}

/// Looks up an argument by position.
pub fn arg(node: &Node, idx: usize) -> (r: Option<&Scalar>)
    ensures
        r matches Some(v) ==> arg_spec(*node, idx as nat) == Some(*v),
        r is None ==> arg_spec(*node, idx as nat) is None,
{
    let mut seen: usize = 0;
    let mut k: usize = 0;
    while k < node.entries.len()
        invariant
            k <= node.entries@.len(),
            seen as nat == args_before(node.entries@, k as int),
            seen <= idx,
            forall|l: int| 0 <= l < k ==> !is_arg_at(node.entries@, idx as nat, l),
        decreases node.entries.len() - k,
    {
        if node.entries[k].name.is_none() {
            if seen == idx {
                proof {
                    assert(is_arg_at(node.entries@, idx as nat, k as int));
                    assert forall|b: int| is_arg_at(node.entries@, idx as nat, b) implies b == k by {
                        lemma_arg_unique(node.entries@, idx as nat, k as int, b);
                    }
                }
                return Some(&node.entries[k].value);
            }
            seen = seen + 1;
        }
        k = k + 1;
    }
    proof {
        assert forall|b: int| !is_arg_at(node.entries@, idx as nat, b) by {
            if k <= b < node.entries@.len() {
                assert(args_before(node.entries@, b) >= args_before(node.entries@, k as int)) by {
                    lemma_args_mono(node.entries@, k as int, b);
                }
            }
        }
    }
    None
}

proof fn lemma_args_mono(entries: Seq<Entry>, a: int, b: int)
    requires
        0 <= a <= b <= entries.len(),
    ensures
        args_before(entries, a) <= args_before(entries, b),
    decreases b - a,
{
    if a < b {
        lemma_args_mono(entries, a, b - 1);
    }
}

/// Looks up a property by key: the last entry with that name.
pub fn prop<'a>(node: &'a Node, key: &str) -> (r: Option<&'a Scalar>)
    ensures
        r matches Some(v) ==> prop_spec(*node, key@) == Some(*v),
        r is None ==> prop_spec(*node, key@) is None,
{
    let mut k: usize = node.entries.len();
    while k > 0
        invariant
            k <= node.entries@.len(),
            forall|l: int| k <= l < node.entries@.len() ==> !#[trigger] named(node.entries@[l], key@),
        decreases k,
    {
        k = k - 1;
        let matched = match &node.entries[k].name {
            Some(n) => same_text(n.as_str(), key),
            None => false,
        };
        if matched {
            proof {
                assert(is_prop_at(node.entries@, key@, k as int));
                assert forall|b: int| is_prop_at(node.entries@, key@, b) implies b == k by {}
            }
            return Some(&node.entries[k].value);
        }
    }
    None
}

/// Looks up the first node with the given name.
pub fn child<'a>(nodes: &'a Vec<Node>, name: &str) -> (r: Option<&'a Node>)
    ensures
        r matches Some(n) ==> child_spec(nodes@, name@) == Some(*n),
        r is None ==> child_spec(nodes@, name@) is None,
{
    let mut k: usize = 0;
    while k < nodes.len()
        invariant
            k <= nodes@.len(),
            forall|l: int| 0 <= l < k ==> nodes@[l].name@ != name@,
        decreases nodes.len() - k,
    {
        if same_text(nodes[k].name.as_str(), name) {
            proof {
                assert(is_first_named(nodes@, name@, k as int));
                assert forall|b: int| is_first_named(nodes@, name@, b) implies b == k by {}
            }
            return Some(&nodes[k]);
        }
        k = k + 1;
    }
    None
}

} // verus!
