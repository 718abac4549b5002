use vstd::prelude::*;

use crate::co_class::ClassDecl;
use crate::iid::Iid;

verus! {

/// One step of the generated identity-query dispatcher. A query walks the
/// steps in order and the first step that matches the requested identity
/// decides the answer.
#[derive(Clone, Copy, PartialEq, Eq, Structural, Debug)]
pub enum QueryStep {
    /// Compare against one directly implemented interface; on a match, hand
    /// out the interface pointer at the named slot of the instance.
    Direct { iid: Iid, slot: usize },
    /// Forward the whole query to the aggregated inner component owned by the
    /// named aggregation entry, returning its answer as our own.
    Forward { entry: usize },
}

/// The dispatcher plan for one declaration: every directly implemented
/// interface first, in declaration order and at its own slot, then one
/// forwarding step per aggregation entry, in declaration order.
pub open spec fn spec_plan(d: ClassDecl) -> Seq<QueryStep> {
    Seq::new(
        d.interfaces@.len(),
        |i: int| QueryStep::Direct { iid: d.interfaces@[i].iid, slot: i as usize },
    ) + Seq::new(d.aggregates@.len(), |j: int| QueryStep::Forward { entry: j as usize })
}

/// Builds the identity-query plan for one declaration.
pub fn generate(decl: &ClassDecl) -> (r: Vec<QueryStep>)
    ensures
        r@ == spec_plan(*decl),
{
    let mut plan: Vec<QueryStep> = Vec::new();
    let ghost direct = Seq::new(
        decl.interfaces@.len(),
        |i: int| QueryStep::Direct { iid: decl.interfaces@[i].iid, slot: i as usize },
    );
    let n = decl.interfaces.len();
    let mut i: usize = 0;
    while i < n
        invariant
            i <= n,
            n == decl.interfaces@.len(),
            direct == Seq::new(
                decl.interfaces@.len(),
                |k: int| QueryStep::Direct { iid: decl.interfaces@[k].iid, slot: k as usize },
            ),
            plan@ =~= direct.take(i as int),
        decreases n - i,
    {
        plan.push(QueryStep::Direct { iid: decl.interfaces[i].iid, slot: i });
        proof {
            assert(plan@ =~= direct.take(i + 1 as int));
        }
        i = i + 1;
    }
    assert(plan@ =~= direct);
    let ghost fwd = Seq::new(
        decl.aggregates@.len(),
        |j: int| QueryStep::Forward { entry: j as usize },
    );
    let m = decl.aggregates.len();
    let mut j: usize = 0;
    while j < m
        invariant
            j <= m,
            m == decl.aggregates@.len(),
            fwd == Seq::new(
                decl.aggregates@.len(),
                |k: int| QueryStep::Forward { entry: k as usize },
            ),
            plan@ =~= direct + fwd.take(j as int),
        decreases m - j,
    {
        plan.push(QueryStep::Forward { entry: j });
        proof {
            assert(plan@ =~= direct + fwd.take(j + 1 as int));
        }
        j = j + 1;
    }
    proof {
        assert(plan@ =~= spec_plan(*decl));
    }
    plan
}

} // verus!
