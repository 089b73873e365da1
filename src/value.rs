//! Values that prompts produce, and the run-scoped store that holds them.
use vstd::prelude::*;
use crate::text::{from_chars, same_text};

verus! {

/// Value of a number prompt.
#[derive(Debug)]
pub enum Number {
    Integer(i64),
    /// A floating-point number, as the text it is written back as.
    Float(String),
}

/// A value produced by a prompt.
#[derive(Debug)]
pub enum Value {
    String(String),
    Number(Number),
    Bool(bool),
}

/// A number that could not be read.
#[derive(Debug)]
pub struct NumberParseError(pub String);

pub open spec fn digit(d: nat) -> char {
    if d == 0 { '0' } else if d == 1 { '1' } else if d == 2 { '2' } else if d == 3 { '3' }
    else if d == 4 { '4' } else if d == 5 { '5' } else if d == 6 { '6' } else if d == 7 { '7' }
    else if d == 8 { '8' } else { '9' }
}

/// Decimal digits of a natural number, without leading zeros.
pub open spec fn digits(n: nat) -> Seq<char>
    decreases n,
{
    if n < 10 {
        seq![digit(n)]
    } else {
        digits(n / 10).push(digit(n % 10))
    }
}

/// Decimal text of an integer, with a leading `-` when negative.
pub open spec fn decimal(i: int) -> Seq<char> {
    if i < 0 { seq!['-'] + digits((-i) as nat) } else { digits(i as nat) }
}

/// Relies on `i64`'s `Display` (through `to_string`): the decimal digits, with
/// a leading `-` for a negative number.
#[verifier::external_body]
fn int_text(i: i64) -> (r: String)
    ensures
        r@ == decimal(i as int),
{
    i.to_string()
}

pub open spec fn true_text() -> Seq<char> {
    seq!['t', 'r', 'u', 'e']
}

pub open spec fn false_text() -> Seq<char> {
    seq!['f', 'a', 'l', 's', 'e']
}

/// The text that a value is written as.
pub open spec fn render_spec(v: Value) -> Seq<char> {
    match v {
        Value::String(s) => s@,
        Value::Number(Number::Integer(i)) => decimal(i as int),
        Value::Number(Number::Float(t)) => t@,
        Value::Bool(b) => if b { true_text() } else { false_text() },
    }
}

impl Value {
    /// The text that the value is written as.
    pub fn render(&self) -> (r: String)
        ensures
            r@ == render_spec(*self),
    {
        match self {
            Value::String(s) => s.clone(),
            Value::Number(Number::Integer(i)) => int_text(*i),
            Value::Number(Number::Float(t)) => t.clone(),
            Value::Bool(b) => {
                let v: Vec<char> = if *b { vec!['t', 'r', 'u', 'e'] } else { vec!['f', 'a', 'l', 's', 'e'] };
                proof {
                    if *b { assert(v@ =~= true_text()); } else { assert(v@ =~= false_text()); }
                }
                from_chars(&v)
            },
        }
    }
}

/// The entry that a name resolves to: the last one written under it.
pub open spec fn is_last_entry(entries: Seq<(String, Value)>, name: Seq<char>, k: int) -> bool {
    &&& 0 <= k < entries.len()
    &&& entries[k].0@ == name
    &&& forall|l: int| k < l < entries.len() ==> (#[trigger] entries[l]).0@ != name
}

pub open spec fn lookup(entries: Seq<(String, Value)>, name: Seq<char>) -> Option<Value> {
    if exists|k: int| is_last_entry(entries, name, k) {
        Some(entries[choose|k: int| is_last_entry(entries, name, k)].1)
    } else {
        None
    }
}

/// Run-scoped store of prompt answers; a later write under a name replaces
/// an earlier one.
#[derive(Debug)]
pub struct State {
    values: Vec<(String, Value)>,
}

impl State {
    /// The value stored under `name`.
    pub closed spec fn get_spec(&self, name: Seq<char>) -> Option<Value> {
        lookup(self.values@, name)
    }

    /// Creates an empty store.
    pub fn new() -> (r: State)
        ensures
            forall|name: Seq<char>| r.get_spec(name) is None,
    {
        State { values: Vec::new() }
    }

    /// Looks up the value stored under `name`.
    pub fn get(&self, name: &str) -> (r: Option<&Value>)
        ensures
            r matches Some(v) ==> self.get_spec(name@) == Some(*v),
            r is None ==> self.get_spec(name@) is None,
    {
        match self.find(name) {
            Some(k) => Some(&self.values[k].1),
            None => None,
        }
    }

    fn find(&self, name: &str) -> (r: Option<usize>)
        ensures
            r matches Some(k) ==> is_last_entry(self.values@, name@, k as int),
            r is None ==> forall|l: int| 0 <= l < self.values@.len() ==> (#[trigger] self.values@[l]).0@ != name@,
    {
        let mut k: usize = self.values.len();
        while k > 0
            invariant
                k <= self.values@.len(),
                forall|l: int| k <= l < self.values@.len() ==> (#[trigger] self.values@[l]).0@ != name@,
            decreases k,
        {
            k = k - 1;
            if same_text(self.values[k].0.as_str(), name) {
                return Some(k);
            }
        }
        None
    }

    /// Stores `value` under `name`, replacing what was there.
    pub fn set(&mut self, name: &str, value: Value)
        ensures
            final(self).get_spec(name@) == Some(value),
            forall|other: Seq<char>| other != name@ ==> final(self).get_spec(other) == old(self).get_spec(other),
    {
        let ghost before = self.values@;
        let key = name.to_owned();
        match self.find(name) {
            Some(k) => {
                self.values.set(k, (key, value));
                proof {
                    assert(is_last_entry(self.values@, name@, k as int));
                    lemma_last_unique(self.values@, name@, k as int);
                    assert forall|other: Seq<char>| other != name@ implies lookup(self.values@, other) == lookup(before, other) by {
                        lemma_lookup_frame(before, self.values@, other);
                    }
                }
            },
            None => {
                self.values.push((key, value));
                proof {
                    let n = before.len() as int;
                    assert(is_last_entry(self.values@, name@, n));
                    lemma_last_unique(self.values@, name@, n);
                    assert forall|other: Seq<char>| other != name@ implies lookup(self.values@, other) == lookup(before, other) by {
                        lemma_lookup_push(before, self.values@, other);
                    }
                }
            },
        }
    }
}

proof fn lemma_last_unique(entries: Seq<(String, Value)>, name: Seq<char>, k: int)
    requires
        is_last_entry(entries, name, k),
    ensures
        lookup(entries, name) == Some(entries[k].1),
{
    assert forall|b: int| is_last_entry(entries, name, b) implies b == k by {
        if b < k {
            assert(entries[k].0@ == name);
        } else if k < b {
            assert(entries[b].0@ == name);
        }
    }
}

/// Rewriting entries of other names leaves the lookup of `other` unchanged.
proof fn lemma_lookup_frame(a: Seq<(String, Value)>, b: Seq<(String, Value)>, other: Seq<char>)
    requires
        a.len() == b.len(),
        forall|l: int| 0 <= l < a.len() && (a[l].0@ == other || b[l].0@ == other) ==> a[l] == b[l],
    ensures
        lookup(b, other) == lookup(a, other),
{
    assert forall|k: int| is_last_entry(a, other, k) <==> is_last_entry(b, other, k) by {
        if 0 <= k < a.len() {
            assert forall|l: int| k < l < a.len() implies ((#[trigger] a[l]).0@ != other <==> b[l].0@ != other) by {}
            if a[k].0@ == other || b[k].0@ == other {
                assert(a[k] == b[k]);
            }
        }
    }
    if exists|k: int| is_last_entry(a, other, k) {
        let k = choose|k: int| is_last_entry(a, other, k);
        lemma_last_unique(a, other, k);
        lemma_last_unique(b, other, k);
    }
}

/// Appending an entry of another name leaves the lookup of `other` unchanged.
proof fn lemma_lookup_push(a: Seq<(String, Value)>, b: Seq<(String, Value)>, other: Seq<char>)
    requires
        b.len() == a.len() + 1,
        forall|l: int| 0 <= l < a.len() ==> a[l] == b[l],
        b[a.len() as int].0@ != other,
    ensures
        lookup(b, other) == lookup(a, other),
{
    assert forall|k: int| is_last_entry(a, other, k) <==> is_last_entry(b, other, k) by {
        if 0 <= k < a.len() {
            assert(a[k] == b[k]);
            assert forall|l: int| k < l < a.len() implies ((#[trigger] a[l]).0@ != other <==> b[l].0@ != other) by {
                assert(a[l] == b[l]);
            }
        }
    }
    if exists|k: int| is_last_entry(a, other, k) {
        let k = choose|k: int| is_last_entry(a, other, k);
        assert(a[k] == b[k]);
        lemma_last_unique(a, other, k);
        lemma_last_unique(b, other, k);
    }
}

} // verus!
