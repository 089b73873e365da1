//! Ordering of named nodes by their requirements.
use vstd::prelude::*;
use petgraph::stable_graph::StableGraph;
use petgraph::Directed;
use crate::depgraph::{graph_add_edge, graph_add_node, graph_edges, graph_new, graph_nodes, graph_out_degree, graph_remove_node};

verus! {

pub open spec fn str_views(v: Seq<String>) -> Seq<Seq<char>> {
    v.map_values(|s: String| s@)
}

/// A node that has a key and requires other nodes by key.
pub trait Node {
    spec fn key(&self) -> Seq<char>;

    spec fn requirements(&self) -> Seq<Seq<char>>;

    fn dependencies(&self) -> (r: &Vec<String>)
        ensures
            str_views(r@) == self.requirements(),
    ;

    fn matches(&self, dep: &String) -> (r: bool)
        ensures
            r == (self.key() == dep@),
    ;
}

pub open spec fn keys_of<N: Node>(nodes: Seq<N>) -> Seq<Seq<char>> {
    nodes.map_values(|n: N| n.key())
}

pub open spec fn reqs_of<N: Node>(nodes: Seq<N>) -> Seq<Seq<Seq<char>>> {
    nodes.map_values(|n: N| n.requirements())
}

/// `j` is the first node whose key is `name`: a requirement points there.
pub open spec fn is_first_match(keys: Seq<Seq<char>>, name: Seq<char>, j: int) -> bool {
    &&& 0 <= j < keys.len()
    &&& keys[j] == name
    &&& forall|k: int| 0 <= k < j ==> keys[k] != name
}

/// Node `i` requires node `j`.
pub open spec fn edge(keys: Seq<Seq<char>>, reqs: Seq<Seq<Seq<char>>>, i: int, j: int) -> bool {
    exists|d: int| 0 <= d < reqs[i].len() && is_first_match(keys, reqs[i][d], j)
}

/// Every node that `i` requires is among `done`.
pub open spec fn ready(keys: Seq<Seq<char>>, reqs: Seq<Seq<Seq<char>>>, done: Seq<usize>, i: int) -> bool {
    forall|j: int| #[trigger] edge(keys, reqs, i, j) ==> done.contains(j as usize)
}

/// A requirement that names no node.
pub open spec fn is_missing(keys: Seq<Seq<char>>, reqs: Seq<Seq<Seq<char>>>, name: Seq<char>) -> bool {
    &&& exists|i: int, d: int| 0 <= i < reqs.len() && 0 <= d < reqs[i].len() && reqs[i][d] == name
    &&& forall|k: int| 0 <= k < keys.len() ==> keys[k] != name
}

/// The outcome of ordering nodes.
#[derive(Debug)]
pub struct Resolution {
    /// Indices of the nodes, each after every node it requires.
    pub order: Vec<usize>,
    /// Requirements that name no node, each once.
    pub unresolved: Vec<String>,
    /// Indices of the nodes that could not be ordered (they lie on or behind a
    /// cycle), ascending.
    pub blocked: Vec<usize>,
}

/// What `resolve` returns: nodes are taken one at a time, each time the
/// highest-indexed node that is not yet taken and whose requirements all are;
/// taking stops when no node is ready.
pub open spec fn is_resolution(keys: Seq<Seq<char>>, reqs: Seq<Seq<Seq<char>>>, r: Resolution) -> bool {
    let n = keys.len();
    let order = r.order@;
    &&& order.len() <= n
    &&& forall|p: int| 0 <= p < order.len() ==> (#[trigger] order[p] as int) < n
    &&& order.no_duplicates()
    &&& forall|p: int| 0 <= p < order.len() ==> ready(keys, reqs, order.take(p), #[trigger] order[p] as int)
    &&& forall|p: int, k: int| 0 <= p < order.len() && order[p] < k < n && !order.take(p).contains(k as usize)
        ==> !#[trigger] ready(keys, reqs, order.take(p), k)
    &&& forall|i: int| 0 <= i < n && !order.contains(i as usize) ==> !#[trigger] ready(keys, reqs, order, i)
    &&& forall|k: int| 0 <= k < r.blocked@.len() ==> (#[trigger] r.blocked@[k] as int) < n
    &&& forall|k: int, l: int| 0 <= k < l < r.blocked@.len() ==> r.blocked@[k] < r.blocked@[l]
    &&& forall|i: usize| #![trigger r.blocked@.contains(i)] #![trigger order.contains(i)]
        (i as int) < n ==> (r.blocked@.contains(i) <==> !order.contains(i))
    &&& str_views(r.unresolved@).no_duplicates()
    &&& forall|s: Seq<char>| str_views(r.unresolved@).contains(s) <==> is_missing(keys, reqs, s)
}

/// One step of the drain: a node taken, or a requirement that names none.
#[derive(Debug)]
pub enum Step {
    Resolved(usize),
    Unresolved(String),
}

impl Resolution {
    /// The drain as steps: each unresolved requirement, then each ordered node.
    pub fn steps(&self) -> (r: Vec<Step>)
        ensures
            r@.len() == self.unresolved@.len() + self.order@.len(),
            forall|k: int| 0 <= k < self.unresolved@.len() ==> r@[k] == Step::Unresolved(self.unresolved@[k]),
            forall|p: int| 0 <= p < self.order@.len() ==> r@[self.unresolved@.len() + p] == Step::Resolved(self.order@[p]),
    {
        let mut r: Vec<Step> = Vec::new();
        let mut k: usize = 0;
        while k < self.unresolved.len()
            invariant
                k <= self.unresolved@.len(),
                r@.len() == k,
                forall|m: int| 0 <= m < k ==> r@[m] == Step::Unresolved(self.unresolved@[m]),
            decreases self.unresolved.len() - k,
        {
            r.push(Step::Unresolved(self.unresolved[k].clone()));
            k = k + 1;
        }
        let mut p: usize = 0;
        while p < self.order.len()
            invariant
                p <= self.order@.len(),
                r@.len() == self.unresolved@.len() + p,
                forall|m: int| 0 <= m < self.unresolved@.len() ==> r@[m] == Step::Unresolved(self.unresolved@[m]),
                forall|q: int| 0 <= q < p ==> r@[self.unresolved@.len() + q] == Step::Resolved(self.order@[q]),
            decreases self.order.len() - p,
        {
            r.push(Step::Resolved(self.order[p]));
            p = p + 1;
        }
        r
    }
}

impl Step {
    pub fn is_resolved(&self) -> (r: bool)
        ensures
            r == (self is Resolved),
    {
        match self {
            Step::Resolved(_) => true,
            Step::Unresolved(_) => false,
        }
    }

    pub fn as_resolved(&self) -> (r: Option<usize>)
        ensures
            r == (match self {
                Step::Resolved(i) => Some(*i),
                Step::Unresolved(_) => None,
            }),
    {
        match self {
            Step::Resolved(i) => Some(*i),
            Step::Unresolved(_) => None,
        }
    }

    pub fn as_unresolved(&self) -> (r: Option<&String>)
        ensures
            r == (match self {
                Step::Resolved(_) => None,
                Step::Unresolved(s) => Some(s),
            }),
    {
        match self {
            Step::Resolved(_) => None,
            Step::Unresolved(s) => Some(s),
        }
    }
}

fn first_match<N: Node>(nodes: &Vec<N>, name: &String) -> (r: Option<usize>)
    ensures
        match r {
            Some(j) => is_first_match(keys_of(nodes@), name@, j as int),
            None => forall|k: int| 0 <= k < nodes@.len() ==> keys_of(nodes@)[k] != name@,
        },
{
    let mut k: usize = 0;
    while k < nodes.len()
        invariant
            k <= nodes@.len(),
            forall|m: int| 0 <= m < k ==> keys_of(nodes@)[m] != name@,
        decreases nodes.len() - k,
    {
        if nodes[k].matches(name) {
            return Some(k);
        }
        k = k + 1;
    }
    None
}

/// For each node, where each of its requirements points.
fn targets_of<N: Node>(nodes: &Vec<N>) -> (t: Vec<Vec<Option<usize>>>)
    ensures
        t@.len() == nodes@.len(),
        forall|i: int| 0 <= i < t@.len() ==> (#[trigger] t@[i])@.len() == reqs_of(nodes@)[i].len(),
        forall|i: int, d: int| 0 <= i < t@.len() && 0 <= d < t@[i]@.len() ==>
            match #[trigger] t@[i]@[d] {
                Some(j) => is_first_match(keys_of(nodes@), reqs_of(nodes@)[i][d], j as int),
                None => forall|k: int| 0 <= k < nodes@.len() ==> keys_of(nodes@)[k] != reqs_of(nodes@)[i][d],
            },
{
    let mut t: Vec<Vec<Option<usize>>> = Vec::new();
    let mut i: usize = 0;
    while i < nodes.len()
        invariant
            i <= nodes@.len(),
            t@.len() == i,
            forall|a: int| 0 <= a < i ==> (#[trigger] t@[a])@.len() == reqs_of(nodes@)[a].len(),
            forall|a: int, d: int| 0 <= a < i && 0 <= d < t@[a]@.len() ==>
                match #[trigger] t@[a]@[d] {
                    Some(j) => is_first_match(keys_of(nodes@), reqs_of(nodes@)[a][d], j as int),
                    None => forall|k: int| 0 <= k < nodes@.len() ==> keys_of(nodes@)[k] != reqs_of(nodes@)[a][d],
                },
        decreases nodes.len() - i,
    {
        let deps = nodes[i].dependencies();
        let mut row: Vec<Option<usize>> = Vec::new();
        let mut d: usize = 0;
        while d < deps.len()
            invariant
                d <= deps@.len(),
                i < nodes@.len(),
                str_views(deps@) == reqs_of(nodes@)[i as int],
                row@.len() == d,
                forall|e: int| 0 <= e < d ==>
                    match #[trigger] row@[e] {
                        Some(j) => is_first_match(keys_of(nodes@), reqs_of(nodes@)[i as int][e], j as int),
                        None => forall|k: int| 0 <= k < nodes@.len() ==> keys_of(nodes@)[k] != reqs_of(nodes@)[i as int][e],
                    },
            decreases deps.len() - d,
        {
            assert(str_views(deps@)[d as int] == deps@[d as int]@);
            row.push(first_match(nodes, &deps[d]));
            d = d + 1;
        }
        t.push(row);
        i = i + 1;
    }
    t
}

pub open spec fn targets_spec(keys: Seq<Seq<char>>, reqs: Seq<Seq<Seq<char>>>, t: Seq<Vec<Option<usize>>>) -> bool {
    &&& t.len() == keys.len()
    &&& reqs.len() == keys.len()
    &&& forall|i: int| 0 <= i < t.len() ==> (#[trigger] t[i])@.len() == reqs[i].len()
    &&& forall|i: int, d: int| 0 <= i < t.len() && 0 <= d < t[i]@.len() ==>
        match #[trigger] t[i]@[d] {
            Some(j) => is_first_match(keys, reqs[i][d], j as int),
            None => forall|k: int| 0 <= k < keys.len() ==> keys[k] != reqs[i][d],
        }
}

/// Number of entries among the first `k` that are not yet taken.
pub open spec fn count_open(done: Seq<bool>, k: int) -> nat
    decreases k,
{
    if k <= 0 || k > done.len() {
        0
    } else {
        count_open(done, k - 1) + (if done[k - 1] { 0nat } else { 1nat })
    }
}

proof fn lemma_count_take(done: Seq<bool>, i: int, k: int)
    requires
        0 <= i < done.len(),
        0 <= k <= done.len(),
        !done[i],
    ensures
        count_open(done.update(i, true), k) + (if i < k { 1nat } else { 0nat }) == count_open(done, k),
    decreases k,
{
    if k > 0 {
        lemma_count_take(done, i, k - 1);
    }
}

proof fn lemma_first_match_unique(keys: Seq<Seq<char>>, name: Seq<char>, a: int, b: int)
    requires
        is_first_match(keys, name, a),
        is_first_match(keys, name, b),
    ensures
        a == b,
{
    if a < b {
        assert(keys[a] != name);
    } else if b < a {
        assert(keys[b] != name);
    }
}

/// An edge of the graph between two nodes that are not taken yet.
pub open spec fn live_edge(keys: Seq<Seq<char>>, reqs: Seq<Seq<Seq<char>>>, ids: Seq<usize>, done: Seq<bool>, a: nat, b: nat) -> bool {
    exists|i: int, j: int| 0 <= i < ids.len() && 0 <= j < ids.len() && ids[i] as nat == a && ids[j] as nat == b
        && #[trigger] edge(keys, reqs, i, j) && !done[i] && !done[j]
}

/// The graph holds exactly the nodes not taken yet, under distinct indices,
/// and the requirement edges between them.
pub open spec fn graph_ok(
    g: StableGraph<usize, u8, Directed, usize>,
    keys: Seq<Seq<char>>,
    reqs: Seq<Seq<Seq<char>>>,
    ids: Seq<usize>,
    done: Seq<bool>,
) -> bool {
    &&& ids.len() == keys.len()
    &&& keys.len() <= usize::MAX
    &&& reqs.len() == keys.len()
    &&& done.len() == keys.len()
    &&& forall|i: int, j: int| 0 <= i < ids.len() && 0 <= j < ids.len() && ids[i] == ids[j] ==> i == j
    &&& forall|k: int| 0 <= k < ids.len() ==> (graph_nodes(g).contains_key(#[trigger] ids[k] as nat) <==> !done[k])
    &&& forall|a: nat, b: nat| #[trigger] graph_edges(g).contains((a, b)) <==> live_edge(keys, reqs, ids, done, a, b)
}

proof fn lemma_degree_ready(
    g: StableGraph<usize, u8, Directed, usize>,
    keys: Seq<Seq<char>>,
    reqs: Seq<Seq<Seq<char>>>,
    ids: Seq<usize>,
    done: Seq<bool>,
    order: Seq<usize>,
    i: int,
)
    requires
        graph_ok(g, keys, reqs, ids, done),
        forall|j: usize| (j as int) < keys.len() ==> (done[j as int] <==> #[trigger] order.contains(j)),
        0 <= i < keys.len(),
        !done[i],
    ensures
        (forall|b: nat| !graph_edges(g).contains((ids[i] as nat, b))) <==> ready(keys, reqs, order, i),
{
    if forall|b: nat| !graph_edges(g).contains((ids[i] as nat, b)) {
        assert forall|j: int| #[trigger] edge(keys, reqs, i, j) implies order.contains(j as usize) by {
            let d = choose|d: int| 0 <= d < reqs[i].len() && is_first_match(keys, reqs[i][d], j);
            assert(0 <= j < keys.len());
            if !done[j] {
                assert(live_edge(keys, reqs, ids, done, ids[i] as nat, ids[j] as nat));
                assert(graph_edges(g).contains((ids[i] as nat, ids[j] as nat)));
            }
            assert(done[j] <==> order.contains(j as usize));
        }
    }
    if ready(keys, reqs, order, i) {
        assert forall|b: nat| !graph_edges(g).contains((ids[i] as nat, b)) by {
            if graph_edges(g).contains((ids[i] as nat, b)) {
                assert(live_edge(keys, reqs, ids, done, ids[i] as nat, b));
                let (i2, j2) = choose|i2: int, j2: int| 0 <= i2 < ids.len() && 0 <= j2 < ids.len() && ids[i2] as nat == ids[i] as nat
                    && ids[j2] as nat == b && #[trigger] edge(keys, reqs, i2, j2) && !done[i2] && !done[j2];
                assert(ids[i2] == ids[i]);
                assert(i2 == i);
                assert(order.contains(j2 as usize));
                assert(done[j2] <==> order.contains(j2 as usize));
            }
        }
    }
}

/// The highest-indexed node that is not taken and has no edge left, if any.
fn pick_ready(
    g: &StableGraph<usize, u8, Directed, usize>,
    ids: &Vec<usize>,
    done: &Vec<bool>,
    Ghost(keys): Ghost<Seq<Seq<char>>>,
    Ghost(reqs): Ghost<Seq<Seq<Seq<char>>>>,
    Ghost(order): Ghost<Seq<usize>>,
) -> (r: Option<usize>)
    requires
        graph_ok(*g, keys, reqs, ids@, done@),
        forall|j: usize| (j as int) < keys.len() ==> (done@[j as int] <==> #[trigger] order.contains(j)),
    ensures
        match r {
            Some(i) => {
                &&& (i as int) < keys.len()
                &&& !done@[i as int]
                &&& ready(keys, reqs, order, i as int)
                &&& forall|k: int| i < k < keys.len() && !order.contains(k as usize) ==> !#[trigger] ready(keys, reqs, order, k)
            },
            None => forall|k: int| 0 <= k < keys.len() && !order.contains(k as usize) ==> !#[trigger] ready(keys, reqs, order, k),
        },
{
    let mut i: usize = ids.len();
    while i > 0
        invariant
            i <= ids@.len(),
            graph_ok(*g, keys, reqs, ids@, done@),
            forall|j: usize| (j as int) < keys.len() ==> (done@[j as int] <==> #[trigger] order.contains(j)),
            forall|k: int| i <= k < keys.len() && !order.contains(k as usize) ==> !#[trigger] ready(keys, reqs, order, k),
        decreases i,
    {
        i = i - 1;
        if !done[i] {
            proof {
                lemma_degree_ready(*g, keys, reqs, ids@, done@, order, i as int);
            }
            if graph_out_degree(g, ids[i]) == 0 {
                return Some(i);
            }
        } else {
            assert(order.contains(i));
        }
    }
    None
}

/// `o` points at a node whose index is `y`.
pub open spec fn hits(o: Option<usize>, ids: Seq<usize>, y: nat) -> bool {
    match o {
        Some(j) => y == ids[j as int] as nat,
        None => false,
    }
}

/// Builds the graph: one node per input node, one edge per requirement that
/// names a node.
fn build_graph<N: Node>(nodes: &Vec<N>, t: &Vec<Vec<Option<usize>>>, done: &Vec<bool>)
    -> (r: (StableGraph<usize, u8, Directed, usize>, Vec<usize>))
    requires
        targets_spec(keys_of(nodes@), reqs_of(nodes@), t@),
        done@.len() == nodes@.len(),
        forall|j: int| 0 <= j < done@.len() ==> !done@[j],
    ensures
        graph_ok(r.0, keys_of(nodes@), reqs_of(nodes@), r.1@, done@),
{
    let ghost keys = keys_of(nodes@);
    let ghost reqs = reqs_of(nodes@);
    let n = nodes.len();
    let mut g = graph_new();
    let mut ids: Vec<usize> = Vec::new();
    let mut i: usize = 0;
    while i < n
        invariant
            i <= n,
            n == nodes@.len(),
            ids@.len() == i,
            forall|k: int| 0 <= k < i ==> graph_nodes(g).contains_key(#[trigger] ids@[k] as nat) && graph_nodes(g)[ids@[k] as nat] == k,
            forall|key: nat| graph_nodes(g).contains_key(key) ==> exists|k: int| 0 <= k < i && ids@[k] as nat == key,
            graph_edges(g).is_empty(),
        decreases n - i,
    {
        let ghost before = graph_nodes(g);
        let ghost old_ids = ids@;
        let id = graph_add_node(&mut g, i);
        ids.push(id);
        proof {
            assert forall|key: nat| graph_nodes(g).contains_key(key) implies exists|k: int| 0 <= k < i + 1 && ids@[k] as nat == key by {
                if key != id as nat {
                    assert(before.contains_key(key));
                    let k = choose|k: int| 0 <= k < i && old_ids[k] as nat == key;
                    assert(ids@[k] == old_ids[k]);
                    assert(ids@[k] as nat == key);
                } else {
                    assert(ids@[i as int] as nat == key);
                }
            }
            assert forall|k: int| 0 <= k < i + 1 implies graph_nodes(g).contains_key(#[trigger] ids@[k] as nat) && graph_nodes(g)[ids@[k] as nat] == k by {
                if k < i {
                    assert(ids@[k] == old_ids[k]);
                    assert(before.contains_key(old_ids[k] as nat));
                    assert(old_ids[k] != id);
                }
            }
        }
        i = i + 1;
    }
    let ghost idv = ids@;
    assert forall|a: int, b: int| 0 <= a < idv.len() && 0 <= b < idv.len() && idv[a] == idv[b] implies a == b by {
        assert(graph_nodes(g)[idv[a] as nat] == a);
        assert(graph_nodes(g)[idv[b] as nat] == b);
    }
    let mut a: usize = 0;
    while a < n
        invariant
            a <= n,
            n == nodes@.len(),
            keys.len() == n,
            t@.len() == n,
            targets_spec(keys, reqs, t@),
            ids@ == idv,
            idv.len() == n,
            forall|x: int, y: int| 0 <= x < idv.len() && 0 <= y < idv.len() && idv[x] == idv[y] ==> x == y,
            forall|k: int| 0 <= k < n ==> graph_nodes(g).contains_key(#[trigger] idv[k] as nat),
            forall|x: nat, y: nat| #[trigger] graph_edges(g).contains((x, y)) <==> exists|p: int, q: int|
                0 <= p < a && 0 <= q < n && idv[p] as nat == x && idv[q] as nat == y && #[trigger] edge(keys, reqs, p, q),
        decreases n - a,
    {
        let row = &t[a];
        let mut d: usize = 0;
        while d < row.len()
            invariant
                a < n,
                d <= row@.len(),
                n == nodes@.len(),
                keys.len() == n,
                t@.len() == n,
                targets_spec(keys, reqs, t@),
                row == t@[a as int],
                ids@ == idv,
                idv.len() == n,
                forall|k: int| 0 <= k < n ==> graph_nodes(g).contains_key(#[trigger] idv[k] as nat),
                forall|x: nat, y: nat| #[trigger] graph_edges(g).contains((x, y)) <==> (exists|p: int, q: int|
                    0 <= p < a && 0 <= q < n && idv[p] as nat == x && idv[q] as nat == y && #[trigger] edge(keys, reqs, p, q))
                    || (exists|e: int| 0 <= e < d && x == idv[a as int] as nat && hits(#[trigger] row@[e], idv, y)),
            decreases row.len() - d,
        {
            assert(row@[d as int] == t@[a as int]@[d as int]);
            if let Some(j) = row[d] {
                let ghost before = graph_edges(g);
                graph_add_edge(&mut g, ids[a], ids[j]);
                proof {
                    assert forall|x: nat, y: nat| #[trigger] graph_edges(g).contains((x, y)) <==> (exists|p: int, q: int|
                        0 <= p < a && 0 <= q < n && idv[p] as nat == x && idv[q] as nat == y && #[trigger] edge(keys, reqs, p, q))
                        || (exists|e: int| 0 <= e < d + 1 && x == idv[a as int] as nat && hits(#[trigger] row@[e], idv, y)) by {
                        if x == idv[a as int] as nat && y == idv[j as int] as nat {
                            assert(hits(row@[d as int], idv, y));
                        }
                        if exists|e: int| 0 <= e < d + 1 && x == idv[a as int] as nat && hits(#[trigger] row@[e], idv, y) {
                            let e = choose|e: int| 0 <= e < d + 1 && x == idv[a as int] as nat && hits(#[trigger] row@[e], idv, y);
                            if e < d {
                                assert(exists|e2: int| 0 <= e2 < d && x == idv[a as int] as nat && hits(#[trigger] row@[e2], idv, y));
                            }
                        }
                    }
                }
            } else {
                proof {
                    assert forall|x: nat, y: nat| #[trigger] graph_edges(g).contains((x, y)) <==> (exists|p: int, q: int|
                        0 <= p < a && 0 <= q < n && idv[p] as nat == x && idv[q] as nat == y && #[trigger] edge(keys, reqs, p, q))
                        || (exists|e: int| 0 <= e < d + 1 && x == idv[a as int] as nat && hits(#[trigger] row@[e], idv, y)) by {
                        if exists|e: int| 0 <= e < d + 1 && x == idv[a as int] as nat && hits(#[trigger] row@[e], idv, y) {
                            let e = choose|e: int| 0 <= e < d + 1 && x == idv[a as int] as nat && hits(#[trigger] row@[e], idv, y);
                            assert(e != d);
                        }
                    }
                }
            }
            d = d + 1;
        }
        proof {
            assert forall|x: nat, y: nat| #[trigger] graph_edges(g).contains((x, y)) <==> exists|p: int, q: int|
                0 <= p < a + 1 && 0 <= q < n && idv[p] as nat == x && idv[q] as nat == y && #[trigger] edge(keys, reqs, p, q) by {
                if exists|e: int| 0 <= e < d && x == idv[a as int] as nat && hits(#[trigger] row@[e], idv, y) {
                    let e = choose|e: int| 0 <= e < d && x == idv[a as int] as nat && hits(#[trigger] row@[e], idv, y);
                    let j = row@[e]->0;
                    assert(t@[a as int]@[e] == row@[e]);
                    assert(edge(keys, reqs, a as int, j as int));
                }
                if exists|p: int, q: int| 0 <= p < a + 1 && 0 <= q < n && idv[p] as nat == x && idv[q] as nat == y && #[trigger] edge(keys, reqs, p, q) {
                    let (p, q) = choose|p: int, q: int| 0 <= p < a + 1 && 0 <= q < n && idv[p] as nat == x && idv[q] as nat == y && #[trigger] edge(keys, reqs, p, q);
                    if p == a {
                        let e = choose|e: int| 0 <= e < reqs[p].len() && is_first_match(keys, reqs[p][e], q);
                        assert(t@[a as int]@[e] == row@[e]);
                        match row@[e] {
                            Some(j2) => {
                                lemma_first_match_unique(keys, reqs[p][e], q, j2 as int);
                            },
                            None => {
                                assert(keys[q] == reqs[p][e]);
                            },
                        }
                    }
                }
            }
        }
        a = a + 1;
    }
    proof {
        assert forall|x: nat, y: nat| #[trigger] graph_edges(g).contains((x, y)) <==> live_edge(keys, reqs, idv, done@, x, y) by {
            if live_edge(keys, reqs, idv, done@, x, y) {
                let (p, q) = choose|p: int, q: int| 0 <= p < idv.len() && 0 <= q < idv.len() && idv[p] as nat == x && idv[q] as nat == y
                    && #[trigger] edge(keys, reqs, p, q) && !done@[p] && !done@[q];
                assert(edge(keys, reqs, p, q));
            }
            if graph_edges(g).contains((x, y)) {
                let (p, q) = choose|p: int, q: int| 0 <= p < n && 0 <= q < n && idv[p] as nat == x && idv[q] as nat == y && #[trigger] edge(keys, reqs, p, q);
                assert(!done@[p] && !done@[q]);
            }
        }
        assert forall|k: int| 0 <= k < idv.len() implies (graph_nodes(g).contains_key(#[trigger] idv[k] as nat) <==> !done@[k]) by {}
    }
    (g, ids)
}

/// Orders the nodes so that each follows every node it requires. Requirements
/// that name no node are reported once each; nodes that never become ready
/// (on or behind a cycle) are reported as blocked.
pub fn resolve<N: Node>(nodes: &Vec<N>) -> (r: Resolution)
    ensures
        is_resolution(keys_of(nodes@), reqs_of(nodes@), r),
{
    let ghost keys = keys_of(nodes@);
    let ghost reqs = reqs_of(nodes@);
    let t = targets_of(nodes);
    let n = nodes.len();
    let unresolved = missing_names(nodes, &t);

    let mut done: Vec<bool> = Vec::new();
    let mut k: usize = 0;
    while k < n
        invariant
            k <= n,
            done@.len() == k,
            forall|j: int| 0 <= j < k ==> !done@[j],
        decreases n - k,
    {
        done.push(false);
        k = k + 1;
    }
    let (mut g, ids) = build_graph(nodes, &t, &done);
    let mut order: Vec<usize> = Vec::new();
    proof {
        assert forall|k: int| 0 <= k <= n implies count_open(done@, k) == k by {
            lemma_count_all_open(done@, k);
        }
    }
    loop
        invariant
            n == keys.len(),
            keys == keys_of(nodes@),
            reqs == reqs_of(nodes@),
            graph_ok(g, keys, reqs, ids@, done@),
            done@.len() == n,
            forall|j: usize| (j as int) < n ==> (done@[j as int] <==> #[trigger] order@.contains(j)),
            order@.len() + count_open(done@, n as int) == n,
            forall|p: int| 0 <= p < order@.len() ==> (#[trigger] order@[p] as int) < n,
            order@.no_duplicates(),
            forall|p: int| 0 <= p < order@.len() ==> ready(keys, reqs, order@.take(p), #[trigger] order@[p] as int),
            forall|p: int, k: int| 0 <= p < order@.len() && order@[p] < k < n && !order@.take(p).contains(k as usize)
                ==> !#[trigger] ready(keys, reqs, order@.take(p), k),
        ensures
            forall|k: int| 0 <= k < n && !order@.contains(k as usize) ==> !#[trigger] ready(keys, reqs, order@, k),
        decreases count_open(done@, n as int),
    {
        match pick_ready(&g, &ids, &done, Ghost(keys), Ghost(reqs), Ghost(order@)) {
            None => {
                break;
            },
            Some(i) => {
                let ghost old_order = order@;
                let ghost old_done = done@;
                proof {
                    lemma_count_take(done@, i as int, n as int);
                }
                let ghost old_edges = graph_edges(g);
                let ghost old_nodes = graph_nodes(g);
                let ghost idv = ids@;
                graph_remove_node(&mut g, ids[i]);
                order.push(i);
                done.set(i, true);
                proof {
                    assert forall|k: int| 0 <= k < idv.len() implies (graph_nodes(g).contains_key(#[trigger] idv[k] as nat) <==> !done@[k]) by {
                        if k != i {
                            assert(old_done[k] == done@[k]);
                        }
                    }
                    assert forall|x: nat, y: nat| #[trigger] graph_edges(g).contains((x, y)) <==> live_edge(keys, reqs, idv, done@, x, y) by {
                        if graph_edges(g).contains((x, y)) {
                            assert(old_edges.contains((x, y)));
                            assert(live_edge(keys, reqs, idv, old_done, x, y));
                            let (p, q) = choose|p: int, q: int| 0 <= p < idv.len() && 0 <= q < idv.len() && idv[p] as nat == x && idv[q] as nat == y
                                && #[trigger] edge(keys, reqs, p, q) && !old_done[p] && !old_done[q];
                            assert(p != i && q != i);
                            assert(edge(keys, reqs, p, q));
                        }
                        if live_edge(keys, reqs, idv, done@, x, y) {
                            let (p, q) = choose|p: int, q: int| 0 <= p < idv.len() && 0 <= q < idv.len() && idv[p] as nat == x && idv[q] as nat == y
                                && #[trigger] edge(keys, reqs, p, q) && !done@[p] && !done@[q];
                            assert(p != i && q != i);
                            assert(!old_done[p] && !old_done[q]);
                            assert(live_edge(keys, reqs, idv, old_done, x, y));
                            assert(old_edges.contains((x, y)));
                            assert(x != idv[i as int] as nat && y != idv[i as int] as nat);
                        }
                    }
                    assert(!old_order.contains(i));
                    assert forall|a: int, b: int| 0 <= a < order@.len() && 0 <= b < order@.len() && a != b
                        implies order@[a] != order@[b] by {
                        if a == old_order.len() {
                            assert(old_order[b] == order@[b]);
                        } else if b == old_order.len() {
                            assert(old_order[a] == order@[a]);
                        }
                    }
                    assert(order@.take(old_order.len() as int) =~= old_order);
                    assert forall|q: int| 0 <= q <= old_order.len() implies #[trigger] order@.take(q) =~= old_order.take(q) by {}
                    assert forall|j: usize| (j as int) < n implies (done@[j as int] <==> #[trigger] order@.contains(j)) by {
                        if j == i {
                            assert(order@[old_order.len() as int] == i);
                        } else if old_order.contains(j) {
                            let q = choose|q: int| 0 <= q < old_order.len() && old_order[q] == j;
                            assert(order@[q] == j);
                        } else if order@.contains(j) {
                            let q = choose|q: int| 0 <= q < order@.len() && order@[q] == j;
                            assert(old_order[q] == j);
                        }
                    }
                    assert forall|p: int| 0 <= p < order@.len() implies ready(keys, reqs, order@.take(p), #[trigger] order@[p] as int) by {
                        if p < old_order.len() {
                            assert(order@.take(p) == old_order.take(p));
                        }
                    }
                    assert forall|p: int, k: int| 0 <= p < order@.len() && order@[p] < k < n && !order@.take(p).contains(k as usize)
                        implies !#[trigger] ready(keys, reqs, order@.take(p), k) by {
                        if p < old_order.len() {
                            assert(order@.take(p) == old_order.take(p));
                        }
                    }
                }
            },
        }
    }

    let mut blocked: Vec<usize> = Vec::new();
    let mut b: usize = 0;
    while b < n
        invariant
            b <= n,
            n == keys.len(),
            done@.len() == n,
            forall|j: usize| (j as int) < n ==> (done@[j as int] <==> #[trigger] order@.contains(j)),
            forall|k: int| 0 <= k < blocked@.len() ==> (#[trigger] blocked@[k] as int) < b,
            forall|k: int, l: int| 0 <= k < l < blocked@.len() ==> blocked@[k] < blocked@[l],
            forall|j: usize| #![trigger blocked@.contains(j)] (j as int) < b ==> (blocked@.contains(j) <==> !done@[j as int]),
            forall|j: usize| #![trigger blocked@.contains(j)] b <= j ==> !blocked@.contains(j),
        decreases n - b,
    {
        let ghost old_blocked = blocked@;
        if !done[b] {
            blocked.push(b);
        }
        proof {
            assert forall|j: usize| blocked@.contains(j) implies (old_blocked.contains(j) || j == b) by {
                let m = choose|m: int| 0 <= m < blocked@.len() && blocked@[m] == j;
                if m < old_blocked.len() {
                    assert(old_blocked[m] == j);
                }
            }
            assert forall|j: usize| old_blocked.contains(j) implies blocked@.contains(j) by {
                let m = choose|m: int| 0 <= m < old_blocked.len() && old_blocked[m] == j;
                assert(blocked@[m] == j);
            }
            if !done@[b as int] {
                assert(blocked@[old_blocked.len() as int] == b);
            }
            assert forall|j: usize| #![trigger blocked@.contains(j)] (j as int) < b + 1 implies (blocked@.contains(j) <==> !done@[j as int]) by {
                if j < b {
                    assert(old_blocked.contains(j) <==> !done@[j as int]);
                } else if done@[b as int] {
                    assert(blocked@ == old_blocked);
                    assert(!old_blocked.contains(j));
                }
            }
        }
        b = b + 1;
    }
    let r = Resolution { order, unresolved, blocked };
    assert(r.order@.len() <= n) by {
        if r.order@.len() > n {
            assert(count_open(done@, n as int) >= 0);
        }
    }
    assert(forall|i: int| 0 <= i < n && !r.order@.contains(i as usize) ==> !#[trigger] ready(keys, reqs, r.order@, i));
    assert(forall|k: int, l: int| 0 <= k < l < r.blocked@.len() ==> r.blocked@[k] < r.blocked@[l]);
    assert(forall|j: usize| #![trigger r.blocked@.contains(j)] #![trigger r.order@.contains(j)]
        (j as int) < n ==> (r.blocked@.contains(j) <==> !r.order@.contains(j)));
    assert(forall|s: Seq<char>| str_views(r.unresolved@).contains(s) <==> is_missing(keys, reqs, s));
    assert(is_resolution(keys, reqs, r));
    r
}

proof fn lemma_count_all_open(done: Seq<bool>, k: int)
    requires
        0 <= k <= done.len(),
        forall|j: int| 0 <= j < done.len() ==> !done[j],
    ensures
        count_open(done, k) == k,
    decreases k,
{
    if k > 0 {
        lemma_count_all_open(done, k - 1);
    }
}

/// Some node requires `name` at a requirement that comes before `(i, d)`.
pub open spec fn required_before(reqs: Seq<Seq<Seq<char>>>, i: int, d: int, name: Seq<char>) -> bool {
    exists|a: int, e: int| 0 <= a <= i && a < reqs.len() && 0 <= e < reqs[a].len() && (a < i || e < d) && reqs[a][e] == name
}

fn contains_str(u: &Vec<String>, s: &String) -> (r: bool)
    ensures
        r == str_views(u@).contains(s@),
{
    let mut q: usize = 0;
    while q < u.len()
        invariant
            q <= u@.len(),
            forall|m: int| 0 <= m < q ==> u@[m]@ != s@,
        decreases u.len() - q,
    {
        if u[q] == *s {
            assert(str_views(u@)[q as int] == s@);
            return true;
        }
        q = q + 1;
    }
    assert(!str_views(u@).contains(s@)) by {
        if str_views(u@).contains(s@) {
            let m = choose|m: int| 0 <= m < u@.len() && str_views(u@)[m] == s@;
            assert(u@[m]@ == s@);
        }
    }
    false
}

/// Requirements that name no node, once each, in order of first appearance.
fn missing_names<N: Node>(nodes: &Vec<N>, t: &Vec<Vec<Option<usize>>>) -> (u: Vec<String>)
    requires
        targets_spec(keys_of(nodes@), reqs_of(nodes@), t@),
    ensures
        str_views(u@).no_duplicates(),
        forall|s: Seq<char>| str_views(u@).contains(s) <==> is_missing(keys_of(nodes@), reqs_of(nodes@), s),
{
    let ghost keys = keys_of(nodes@);
    let ghost reqs = reqs_of(nodes@);
    let mut u: Vec<String> = Vec::new();
    let mut i: usize = 0;
    while i < nodes.len()
        invariant
            i <= nodes@.len(),
            keys == keys_of(nodes@),
            reqs == reqs_of(nodes@),
            targets_spec(keys, reqs, t@),
            str_views(u@).no_duplicates(),
            forall|s: Seq<char>| str_views(u@).contains(s) <==>
                (required_before(reqs, i as int, 0, s) && forall|k: int| 0 <= k < keys.len() ==> keys[k] != s),
        decreases nodes.len() - i,
    {
        let deps = nodes[i].dependencies();
        let row = &t[i];
        let mut d: usize = 0;
        while d < deps.len()
            invariant
                d <= deps@.len(),
                i < nodes@.len(),
                keys == keys_of(nodes@),
                reqs == reqs_of(nodes@),
                targets_spec(keys, reqs, t@),
                row == t@[i as int],
                str_views(deps@) == reqs[i as int],
                str_views(u@).no_duplicates(),
                forall|s: Seq<char>| str_views(u@).contains(s) <==>
                    (required_before(reqs, i as int, d as int, s) && forall|k: int| 0 <= k < keys.len() ==> keys[k] != s),
            decreases deps.len() - d,
        {
            let ghost name = reqs[i as int][d as int];
            assert(str_views(deps@)[d as int] == deps@[d as int]@);
            assert(row@[d as int] == t@[i as int]@[d as int]);
            if row[d].is_none() {
                assert(forall|k: int| 0 <= k < keys.len() ==> keys[k] != name);
                let seen = contains_str(&u, &deps[d]);
                let ghost old_u = u@;
                proof {
                    assert(deps@[d as int]@ == name);
                }
                if !seen {
                    u.push(deps[d].clone());
                    proof {
                        assert(str_views(u@) =~= str_views(old_u).push(name));
                        assert forall|s: Seq<char>| str_views(u@).contains(s) <==> (str_views(old_u).contains(s) || s == name) by {
                            if str_views(u@).contains(s) {
                                let m = choose|m: int| 0 <= m < u@.len() && str_views(u@)[m] == s;
                                if m < old_u.len() {
                                    assert(str_views(old_u)[m] == s);
                                }
                            }
                            if str_views(old_u).contains(s) {
                                let m = choose|m: int| 0 <= m < old_u.len() && str_views(old_u)[m] == s;
                                assert(str_views(u@)[m] == s);
                            }
                            if s == name {
                                assert(str_views(u@)[old_u.len() as int] == s);
                            }
                        }
                    }
                }
                proof {
                    assert(forall|s: Seq<char>| str_views(u@).contains(s) <==> (str_views(old_u).contains(s) || s == name));
                    assert forall|s: Seq<char>| str_views(u@).contains(s) <==>
                        (required_before(reqs, i as int, d + 1, s) && forall|k: int| 0 <= k < keys.len() ==> keys[k] != s) by {
                        if s == name {
                            assert(reqs[i as int][d as int] == name);
                            assert(required_before(reqs, i as int, d + 1, s));
                        }
                        if required_before(reqs, i as int, d as int, s) {
                            let (a, e) = choose|a: int, e: int| 0 <= a <= i && a < reqs.len() && 0 <= e < reqs[a].len() && (a < i || e < d) && reqs[a][e] == s;
                            assert(required_before(reqs, i as int, d + 1, s));
                        }
                        if required_before(reqs, i as int, d + 1, s) && s != name {
                            let (a, e) = choose|a: int, e: int| 0 <= a <= i && a < reqs.len() && 0 <= e < reqs[a].len() && (a < i || e < d + 1) && reqs[a][e] == s;
                            assert(required_before(reqs, i as int, d as int, s));
                        }
                    }
                }
            } else {
                proof {
                    assert forall|s: Seq<char>| str_views(u@).contains(s) <==>
                        (required_before(reqs, i as int, d + 1, s) && forall|k: int| 0 <= k < keys.len() ==> keys[k] != s) by {
                        if required_before(reqs, i as int, d + 1, s) && s != name {
                            let (a, e) = choose|a: int, e: int| 0 <= a <= i && a < reqs.len() && 0 <= e < reqs[a].len() && (a < i || e < d + 1) && reqs[a][e] == s;
                            assert(required_before(reqs, i as int, d as int, s));
                        }
                        if s == name {
                            let j = row@[d as int]->0;
                            assert(keys[j as int] == s);
                        }
                    }
                }
            }
            d = d + 1;
        }
        proof {
            assert forall|s: Seq<char>| required_before(reqs, i as int, d as int, s) <==> required_before(reqs, i + 1, 0, s) by {
                if required_before(reqs, i + 1, 0, s) {
                    let (a, e) = choose|a: int, e: int| 0 <= a <= i + 1 && a < reqs.len() && 0 <= e < reqs[a].len() && (a < i + 1 || e < 0) && reqs[a][e] == s;
                    assert(required_before(reqs, i as int, d as int, s));
                }
            }
        }
        i = i + 1;
    }
    proof {
        assert forall|s: Seq<char>| required_before(reqs, i as int, 0, s) <==>
            exists|a: int, e: int| 0 <= a < reqs.len() && 0 <= e < reqs[a].len() && reqs[a][e] == s by {
            if exists|a: int, e: int| 0 <= a < reqs.len() && 0 <= e < reqs[a].len() && reqs[a][e] == s {
                let (a, e) = choose|a: int, e: int| 0 <= a < reqs.len() && 0 <= e < reqs[a].len() && reqs[a][e] == s;
                assert(required_before(reqs, i as int, 0, s));
            }
        }
    }
    u
}

/// No chain of requirements leads from a node back to itself: some rank of
/// the nodes drops along every requirement.
pub open spec fn acyclic(keys: Seq<Seq<char>>, reqs: Seq<Seq<Seq<char>>>) -> bool {
    exists|rank: Seq<nat>| #[trigger] rank.len() == keys.len()
        && forall|i: int, j: int| 0 <= i < keys.len() && #[trigger] edge(keys, reqs, i, j) ==> rank[j] < rank[i]
}

proof fn lemma_some_ready(keys: Seq<Seq<char>>, reqs: Seq<Seq<Seq<char>>>, order: Seq<usize>, rank: Seq<nat>, i: int)
    requires
        rank.len() == keys.len(),
        forall|a: int, j: int| 0 <= a < keys.len() && #[trigger] edge(keys, reqs, a, j) ==> rank[j] < rank[a],
        0 <= i < keys.len(),
        !order.contains(i as usize),
    ensures
        exists|k: int| 0 <= k < keys.len() && !order.contains(k as usize) && #[trigger] ready(keys, reqs, order, k),
    decreases rank[i],
{
    if !ready(keys, reqs, order, i) {
        let j = choose|j: int| #[trigger] edge(keys, reqs, i, j) && !order.contains(j as usize);
        let d = choose|d: int| 0 <= d < reqs[i].len() && is_first_match(keys, reqs[i][d], j);
        lemma_some_ready(keys, reqs, order, rank, j);
    }
}

/// When no node reaches itself through its requirements, every node is
/// ordered exactly once, none is blocked, and each node comes after every
/// node it requires.
pub proof fn law_acyclic_orders_all<N: Node>(nodes: Seq<N>, r: Resolution)
    requires
        acyclic(keys_of(nodes), reqs_of(nodes)),
        is_resolution(keys_of(nodes), reqs_of(nodes), r),
    ensures
        forall|i: usize| (i as int) < nodes.len() ==> #[trigger] r.order@.contains(i),
        r.order@.no_duplicates(),
        r.blocked@.len() == 0,
        forall|p: int, q: int| 0 <= p < r.order@.len() && 0 <= q < r.order@.len()
            && #[trigger] edge(keys_of(nodes), reqs_of(nodes), r.order@[p] as int, r.order@[q] as int) ==> q < p,
{
    let keys = keys_of(nodes);
    let reqs = reqs_of(nodes);
    let order = r.order@;
    let rank = choose|rank: Seq<nat>| #[trigger] rank.len() == keys.len()
        && forall|i: int, j: int| 0 <= i < keys.len() && #[trigger] edge(keys, reqs, i, j) ==> rank[j] < rank[i];
    assert forall|i: usize| (i as int) < nodes.len() implies #[trigger] order.contains(i) by {
        if !order.contains(i) {
            lemma_some_ready(keys, reqs, order, rank, i as int);
        }
    }
    if r.blocked@.len() > 0 {
        let b = r.blocked@[0];
        assert(r.blocked@.contains(b));
        assert(order.contains(b));
    }
    assert forall|p: int, q: int| 0 <= p < order.len() && 0 <= q < order.len()
        && #[trigger] edge(keys, reqs, order[p] as int, order[q] as int) implies q < p by {
        assert(ready(keys, reqs, order.take(p), order[p] as int));
        assert(order.take(p).contains(order[q]));
        let q2 = choose|q2: int| 0 <= q2 < p && order.take(p)[q2] == order[q];
        assert(order[q2] == order[q]);
    }
}

/// A requirement that names no node appears exactly once among the
/// unresolved names.
pub proof fn law_missing_reported_once<N: Node>(nodes: Seq<N>, r: Resolution, name: Seq<char>)
    requires
        is_resolution(keys_of(nodes), reqs_of(nodes), r),
        is_missing(keys_of(nodes), reqs_of(nodes), name),
    ensures
        exists|k: int| 0 <= k < r.unresolved@.len() && (#[trigger] r.unresolved@[k])@ == name
            && forall|l: int| 0 <= l < r.unresolved@.len() && (#[trigger] r.unresolved@[l])@ == name ==> l == k,
{
    let u = str_views(r.unresolved@);
    assert(u.contains(name));
    let k = choose|k: int| 0 <= k < u.len() && u[k] == name;
    assert(r.unresolved@[k]@ == name);
    assert forall|l: int| 0 <= l < r.unresolved@.len() && (#[trigger] r.unresolved@[l])@ == name implies l == k by {
        assert(u[l] == name);
    }
}

} // verus!
