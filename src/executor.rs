//! The order in which a compiled document's actions run.
use vstd::prelude::*;
use crate::config::ActionSuite;
use crate::graph::{resolve, is_resolution, keys_of, reqs_of, Resolution};

verus! {

/// A failure while running actions.
#[derive(Debug)]
pub enum ExecutorError {
    Io { message: String },
}

/// The steps that run the suites of `order`, in turn: each suite's actions
/// in written order, as (suite, action) indices.
pub open spec fn suite_steps(suites: Seq<ActionSuite>, order: Seq<usize>) -> Seq<(usize, usize)>
    decreases order.len(),
{
    if order.len() == 0 {
        Seq::empty()
    } else {
        let s = order.last();
        suite_steps(suites, order.drop_last())
            + Seq::new(suites[s as int].actions@.len(), |a: int| (s, a as usize))
    }
}

/// What runs when a document holds suites.
#[derive(Debug)]
pub struct Schedule {
    /// How the suites were ordered.
    pub resolution: Resolution,
    /// The (suite, action) steps, in the order they run.
    pub steps: Vec<(usize, usize)>,
}

/// Orders the suites by their requirements and lists the actions to run:
/// every action of every ordered suite, suite by suite; unresolved and blocked
/// suites run nothing.
pub fn schedule(suites: &Vec<ActionSuite>) -> (r: Schedule)
    ensures
        is_resolution(keys_of(suites@), reqs_of(suites@), r.resolution),
        r.steps@ == suite_steps(suites@, r.resolution.order@),
{
    let resolution = resolve(suites);
    let order = &resolution.order;
    let mut steps: Vec<(usize, usize)> = Vec::new();
    let mut p: usize = 0;
    while p < order.len()
        invariant
            p <= order@.len(),
            forall|q: int| 0 <= q < order@.len() ==> (#[trigger] order@[q] as int) < suites@.len(),
            steps@ == suite_steps(suites@, order@.take(p as int)),
        decreases order.len() - p,
    {
        let s = order[p];
        let n = suites[s].actions.len();
        let ghost before = steps@;
        let mut a: usize = 0;
        while a < n
            invariant
                a <= n,
                n == suites@[s as int].actions@.len(),
                steps@ == before + Seq::new(a as nat, |i: int| (s, i as usize)),
            decreases n - a,
        {
            steps.push((s, a));
            a = a + 1;
            assert(steps@ =~= before + Seq::new(a as nat, |i: int| (s, i as usize)));
        }
        proof {
            assert(order@.take(p + 1).drop_last() =~= order@.take(p as int));
            assert(order@.take(p + 1).last() == s);
        }
        p = p + 1;
    }
    assert(order@.take(p as int) =~= order@);
    Schedule { resolution, steps }
}

} // verus!
