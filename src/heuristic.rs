//! The heuristic optimizer: applies rules to a plan tree, pass after pass,
//! until a pass changes nothing.
use vstd::prelude::*;
use crate::error::OptimizerError;
use crate::optimizer::RuleImpl;
use crate::plan::{Plan, PlanNode, arities_wf, nodes_wf};
use crate::rules::{
    OptExpression, OptExpressionV, RuleId, RulePromise, RuleResult, apply_rule, kind_matches,
    operator_matches, rule_impl_pattern, rule_impl_promise, rule_output, rule_pattern,
};

verus! {

/// Largest number of passes before the optimizer gives up on reaching a
/// plan that no rule changes.
pub const MAX_PASSES: usize = 64;

/// What rule `id` binds at node `i`: the node over its inputs, or the node
/// over its first input node for a two-level pattern.
pub open spec fn plan_binding(nodes: Seq<PlanNode>, i: int, id: RuleId) -> Option<OptExpressionV> {
    let n = nodes[i];
    let p = rule_pattern(id);
    if !kind_matches(p.top, n.operator.view()) {
        None
    } else {
        match p.child {
            None => Some(OptExpressionV::Node { operator: n.operator.view(), inputs: n.inputs@ }),
            Some(ck) => if n.inputs@.len() > 0 && kind_matches(
                ck,
                nodes[n.inputs@[0] as int].operator.view(),
            ) {
                Some(
                    OptExpressionV::Stacked {
                        operator: n.operator.view(),
                        child: nodes[n.inputs@[0] as int].operator.view(),
                        inputs: nodes[n.inputs@[0] as int].inputs@,
                    },
                )
            } else {
                None
            },
        }
    }
}

/// No rule of `rules` changes node `i`.
pub open spec fn settled_at(nodes: Seq<PlanNode>, i: int, rules: Seq<RuleImpl>) -> bool {
    forall|r: int|
        #![trigger rules[r]]
        0 <= r < rules.len() ==> match plan_binding(nodes, i, rules[r].id()) {
            None => true,
            Some(b) => rule_output(rules[r].id(), b) is None,
        }
}

/// No rule of `rules` changes any node of `nodes`.
pub open spec fn settled(nodes: Seq<PlanNode>, rules: Seq<RuleImpl>) -> bool {
    forall|i: int| 0 <= i < nodes.len() ==> #[trigger] settled_at(nodes, i, rules)
}

/// A binding in a well-formed plan has the shape its rule expects.
pub proof fn lemma_plan_binding_fires(nodes: Seq<PlanNode>, i: int, id: RuleId)
    requires
        nodes_wf(nodes),
        arities_wf(nodes),
        0 <= i < nodes.len(),
        plan_binding(nodes, i, id) is Some,
    ensures
        rule_output(id, plan_binding(nodes, i, id)->0) is Some,
{
    assert(nodes[i].inputs@.len() == nodes[i].operator.view().arity());
}

/// Binds rule `id` at node `i`.
fn bind_node(nodes: &Vec<PlanNode>, i: usize, id: RuleId) -> (r: Option<OptExpression>)
    requires
        i < nodes@.len(),
        nodes_wf(nodes@),
    ensures
        match r {
            None => plan_binding(nodes@, i as int, id) is None,
            Some(b) => plan_binding(nodes@, i as int, id) == Some(b.view()),
        },
{
    let p = rule_impl_pattern(id);
    let n = &nodes[i];
    if !operator_matches(p.top, &n.operator) {
        return None;
    }
    match p.child {
        None => Some(OptExpression::Node { operator: n.operator.deep_clone(), inputs: n.inputs.clone() }),
        Some(ck) => {
            if n.inputs.len() == 0 {
                return None;
            }
            let c = n.inputs[0];
            assert(c < i);
            let child = &nodes[c];
            if !operator_matches(ck, &child.operator) {
                return None;
            }
            Some(
                OptExpression::Stacked {
                    operator: n.operator.deep_clone(),
                    child: child.operator.deep_clone(),
                    inputs: child.inputs.clone(),
                },
            )
        },
    }
}

fn inputs_below(inputs: &Vec<usize>, n: usize) -> (r: bool)
    ensures
        r == forall|k: int| 0 <= k < inputs@.len() ==> inputs@[k] < n,
{
    let mut k: usize = 0;
    while k < inputs.len()
        invariant
            k <= inputs@.len(),
            forall|j: int| 0 <= j < k ==> inputs@[j] < n,
        decreases inputs@.len() - k,
    {
        if inputs[k] >= n {
            return false;
        }
        k = k + 1;
    }
    true
}

/// Appends what a rule emitted to `nodes` and returns the index of its root.
fn splice(nodes: &mut Vec<PlanNode>, out: &OptExpression) -> (r: Result<usize, OptimizerError>)
    requires
        nodes_wf(old(nodes)@),
        arities_wf(old(nodes)@),
    ensures
        nodes_wf(final(nodes)@),
        arities_wf(final(nodes)@),
        final(nodes)@.len() >= old(nodes)@.len(),
        forall|j: int| 0 <= j < old(nodes)@.len() ==> final(nodes)@[j] == old(nodes)@[j],
        match r {
            Ok(i) => i < final(nodes)@.len(),
            Err(e) => e == OptimizerError::InvariantViolation,
        },
{
    if nodes.len() >= usize::MAX - 2 {
        return Err(OptimizerError::InvariantViolation);
    }
    let ghost before = nodes@;
    match out {
        OptExpression::Node { operator, inputs } => {
            if inputs.len() != operator.arity() || !inputs_below(inputs, nodes.len()) {
                return Err(OptimizerError::InvariantViolation);
            }
            nodes.push(PlanNode { operator: operator.deep_clone(), inputs: inputs.clone() });
            proof {
                assert forall|i: int, k: int|
                    0 <= i < nodes@.len() && 0 <= k < nodes@[i].inputs@.len() implies nodes@[i].inputs@[k]
                    < i by {
                    if i < before.len() {
                        assert(nodes@[i] == before[i]);
                    }
                }
                assert forall|i: int|
                    0 <= i < nodes@.len() implies nodes@[i].inputs@.len()
                    == nodes@[i].operator.view().arity() by {
                    if i < before.len() {
                        assert(nodes@[i] == before[i]);
                    }
                }
            }
            Ok(nodes.len() - 1)
        },
        OptExpression::Stacked { operator, child, inputs } => {
            if inputs.len() != child.arity() || operator.arity() != 1 || !inputs_below(
                inputs,
                nodes.len(),
            ) {
                return Err(OptimizerError::InvariantViolation);
            }
            let c = nodes.len();
            nodes.push(PlanNode { operator: child.deep_clone(), inputs: inputs.clone() });
            nodes.push(PlanNode { operator: operator.deep_clone(), inputs: vec![c] });
            proof {
                assert forall|i: int, k: int|
                    0 <= i < nodes@.len() && 0 <= k < nodes@[i].inputs@.len() implies nodes@[i].inputs@[k]
                    < i by {
                    if i < before.len() {
                        assert(nodes@[i] == before[i]);
                    }
                }
                assert forall|i: int|
                    0 <= i < nodes@.len() implies nodes@[i].inputs@.len()
                    == nodes@[i].operator.view().arity() by {
                    if i < before.len() {
                        assert(nodes@[i] == before[i]);
                    }
                }
            }
            Ok(nodes.len() - 1)
        },
    }
}

} // verus!

verus! {

/// Rule `r` leaves node `i` as it is.
pub open spec fn rule_settled_at(nodes: Seq<PlanNode>, i: int, rules: Seq<RuleImpl>, r: int) -> bool {
    match plan_binding(nodes, i, rules[r].id()) {
        None => true,
        Some(b) => rule_output(rules[r].id(), b) is None,
    }
}

/// Tries the rules of promise `promise` at node `j`, in order; the first
/// that binds replaces the node, and the index of its replacement is
/// returned.
fn try_rules(rules: &Vec<RuleImpl>, promise: RulePromise, nodes: &mut Vec<PlanNode>, j: usize) -> (r:
    Result<Option<usize>, OptimizerError>)
    requires
        nodes_wf(old(nodes)@),
        arities_wf(old(nodes)@),
        j < old(nodes)@.len(),
    ensures
        nodes_wf(final(nodes)@),
        arities_wf(final(nodes)@),
        final(nodes)@.len() >= old(nodes)@.len(),
        forall|x: int| 0 <= x < old(nodes)@.len() ==> final(nodes)@[x] == old(nodes)@[x],
        match r {
            Ok(None) => final(nodes)@ == old(nodes)@ && forall|x: int|
                0 <= x < rules@.len() && rule_impl_promise_spec(rules@[x]) == promise
                    ==> rule_settled_at(old(nodes)@, j as int, rules@, x),
            Ok(Some(x)) => x < final(nodes)@.len(),
            Err(e) => e == OptimizerError::InvariantViolation,
        },
{
    let mut r: usize = 0;
    while r < rules.len()
        invariant
            nodes_wf(nodes@),
            arities_wf(nodes@),
            j < nodes@.len(),
            nodes@ == old(nodes)@,
            r <= rules@.len(),
            forall|x: int|
                0 <= x < r && rule_impl_promise_spec(rules@[x]) == promise ==> rule_settled_at(
                    nodes@,
                    j as int,
                    rules@,
                    x,
                ),
        decreases rules@.len() - r,
    {
        let id = rules[r].rule_id();
        if rule_impl_promise(id) == promise {
            match bind_node(nodes, j, id) {
                None => {},
                Some(b) => {
                    let mut result = RuleResult::new();
                    proof {
                        lemma_plan_binding_fires(nodes@, j as int, id);
                    }
                    match apply_rule(id, &b, &mut result) {
                        Ok(()) => {},
                        Err(e) => {
                            return Err(e);
                        },
                    }
                    if result.exprs.len() > 0 {
                        match splice(nodes, &result.exprs[0]) {
                            Ok(x) => {
                                return Ok(Some(x));
                            },
                            Err(e) => {
                                return Err(e);
                            },
                        }
                    }
                    proof {
                        assert(rule_output(id, b.view()) is Some);
                        assert(rule_output(id, b.view())->0.len() == 0);
                    }
                },
            }
        }
        r = r + 1;
    }
    Ok(None)
}

pub open spec fn rule_impl_promise_spec(rule: RuleImpl) -> RulePromise {
    crate::rules::rule_promise_of(rule.id())
}

} // verus!

verus! {

/// One pass over `plan`, from the leaves up: each node is rebuilt over the
/// rebuilt inputs, and the first rule that binds there (high promise
/// first) replaces it. Returns the new plan and whether any rule fired.
fn run_pass(rules: &Vec<RuleImpl>, plan: &Plan) -> (r: Result<(Plan, bool), OptimizerError>)
    requires
        plan.wf(),
    ensures
        match r {
            Ok((p, changed)) => p.wf() && (!changed ==> settled(p.nodes@, rules@)),
            Err(e) => e == OptimizerError::InvariantViolation,
        },
{
    let mut out: Vec<PlanNode> = Vec::new();
    let mut new_index: Vec<usize> = Vec::new();
    let mut changed = false;
    let mut i: usize = 0;
    while i < plan.nodes.len()
        invariant
            plan.wf(),
            i <= plan.nodes@.len(),
            new_index@.len() == i,
            nodes_wf(out@),
            arities_wf(out@),
            forall|x: int| 0 <= x < i ==> new_index@[x] < out@.len(),
            !changed ==> settled(out@, rules@),
        decreases plan.nodes@.len() - i,
    {
        if out.len() >= usize::MAX - 3 {
            return Err(OptimizerError::InvariantViolation);
        }
        let node = &plan.nodes[i];
        let mut inputs: Vec<usize> = Vec::new();
        let mut k: usize = 0;
        while k < node.inputs.len()
            invariant
                plan.wf(),
                i < plan.nodes@.len(),
                *node == plan.nodes@[i as int],
                new_index@.len() == i,
                forall|x: int| 0 <= x < i ==> new_index@[x] < out@.len(),
                k <= node.inputs@.len(),
                inputs@.len() == k,
                forall|x: int| 0 <= x < k ==> inputs@[x] < out@.len(),
            decreases node.inputs@.len() - k,
        {
            let c = node.inputs[k];
            assert(c < i);
            inputs.push(new_index[c]);
            k = k + 1;
        }
        let ghost before = out@;
        let j = out.len();
        out.push(PlanNode { operator: node.operator.deep_clone(), inputs });
        proof {
            assert forall|a: int, b: int|
                0 <= a < out@.len() && 0 <= b < out@[a].inputs@.len() implies out@[a].inputs@[b]
                < a by {
                if a < before.len() {
                    assert(out@[a] == before[a]);
                }
            }
            assert forall|a: int|
                0 <= a < out@.len() implies out@[a].inputs@.len() == out@[a].operator.view().arity() by {
                if a < before.len() {
                    assert(out@[a] == before[a]);
                }
            }
        }
        let ghost pushed = out@;
        let high = match try_rules(rules, RulePromise::HIGH, &mut out, j) {
            Ok(h) => h,
            Err(e) => {
                return Err(e);
            },
        };
        let replaced = match high {
            Some(x) => Some(x),
            None => match try_rules(rules, RulePromise::LOW, &mut out, j) {
                Ok(l) => l,
                Err(e) => {
                    return Err(e);
                },
            },
        };
        match replaced {
            Some(x) => {
                new_index.push(x);
                changed = true;
            },
            None => {
                proof {
                    assert(out@ == pushed);
                    if !changed {
                        assert forall|a: int| 0 <= a < out@.len() implies #[trigger] settled_at(
                            out@,
                            a,
                            rules@,
                        ) by {
                            if a < before.len() {
                                assert(settled_at(before, a, rules@));
                                assert(out@[a] == before[a]);
                                assert forall|r: int|
                                    #![trigger rules@[r]]
                                    0 <= r < rules@.len() implies rule_settled_at(out@, a, rules@, r) by {
                                    assert(rule_settled_at(before, a, rules@, r));
                                    let n = out@[a];
                                    if n.inputs@.len() > 0 {
                                        assert(out@[n.inputs@[0] as int] == before[n.inputs@[0] as int]);
                                    }
                                    assert(plan_binding(out@, a, rules@[r].id()) == plan_binding(
                                        before,
                                        a,
                                        rules@[r].id(),
                                    ));
                                }
                            } else {
                                assert forall|r: int|
                                    #![trigger rules@[r]]
                                    0 <= r < rules@.len() implies rule_settled_at(out@, a, rules@, r) by {
                                    assert(rule_impl_promise_spec(rules@[r]) == RulePromise::HIGH
                                        || rule_impl_promise_spec(rules@[r]) == RulePromise::LOW);
                                }
                            }
                        }
                    }
                }
                new_index.push(j);
            },
        }
        i = i + 1;
    }
    Ok((Plan { nodes: out, root: new_index[plan.root] }, changed))
}

} // verus!

verus! {

/// Whether no rule of `rules` changes any node of `nodes`.
pub fn is_settled(rules: &Vec<RuleImpl>, nodes: &Vec<PlanNode>) -> (r: bool)
    requires
        nodes_wf(nodes@),
    ensures
        r == settled(nodes@, rules@),
{
    let mut i: usize = 0;
    while i < nodes.len()
        invariant
            nodes_wf(nodes@),
            i <= nodes@.len(),
            forall|a: int| 0 <= a < i ==> #[trigger] settled_at(nodes@, a, rules@),
        decreases nodes@.len() - i,
    {
        let mut r: usize = 0;
        while r < rules.len()
            invariant
                nodes_wf(nodes@),
                i < nodes@.len(),
                r <= rules@.len(),
                forall|x: int| 0 <= x < r ==> rule_settled_at(nodes@, i as int, rules@, x),
            decreases rules@.len() - r,
        {
            let id = rules[r].rule_id();
            match bind_node(nodes, i, id) {
                None => {},
                Some(b) => {
                    let mut scratch = RuleResult::new();
                    if apply_rule(id, &b, &mut scratch).is_ok() {
                        proof {
                            assert(!rule_settled_at(nodes@, i as int, rules@, r as int));
                            assert(!settled_at(nodes@, i as int, rules@));
                        }
                        return false;
                    }
                },
            }
            r = r + 1;
        }
        proof {
            assert forall|x: int|
                #![trigger rules@[x]]
                0 <= x < rules@.len() implies rule_settled_at(nodes@, i as int, rules@, x) by {}
        }
        i = i + 1;
    }
    true
}

/// A copy of `plan`: the same nodes, operators and inputs.
fn copy_plan(plan: &Plan) -> (r: Plan)
    requires
        plan.wf(),
    ensures
        same_nodes(r, *plan),
        r.wf(),
{
    let mut nodes: Vec<PlanNode> = Vec::new();
    let mut i: usize = 0;
    while i < plan.nodes.len()
        invariant
            plan.wf(),
            i <= plan.nodes@.len(),
            nodes@.len() == i,
            forall|j: int|
                0 <= j < i ==> nodes@[j].operator.view() == plan.nodes@[j].operator.view()
                    && nodes@[j].inputs@ == plan.nodes@[j].inputs@,
        decreases plan.nodes@.len() - i,
    {
        nodes.push(
            PlanNode {
                operator: plan.nodes[i].operator.deep_clone(),
                inputs: plan.nodes[i].inputs.clone(),
            },
        );
        i = i + 1;
    }
    Plan { nodes, root: plan.root }
}

/// `a` and `b` have the same root and, node for node, equal operators and
/// inputs.
pub open spec fn same_nodes(a: Plan, b: Plan) -> bool {
    &&& a.root == b.root
    &&& a.nodes@.len() == b.nodes@.len()
    &&& forall|j: int|
        0 <= j < a.nodes@.len() ==> a.nodes@[j].operator.view() == b.nodes@[j].operator.view()
            && a.nodes@[j].inputs@ == b.nodes@[j].inputs@
}

/// Applies rules to a plan until none changes it.
pub struct HeuristicOptimizer {
    pub rules: Vec<RuleImpl>,
    pub plan: Plan,
}

impl HeuristicOptimizer {
    pub open spec fn wf(&self) -> bool {
        self.plan.wf()
    }

    pub fn new(rules: Vec<RuleImpl>, plan: Plan) -> (r: HeuristicOptimizer)
        requires
            plan.wf(),
        ensures
            r.wf(),
            r.rules@ == rules@,
            r.plan == plan,
    {
        HeuristicOptimizer { rules, plan }
    }

    pub fn root_node_id(&self) -> (r: usize)
        ensures
            r == self.plan.root,
    {
        self.plan.root
    }

    /// Runs passes until one changes nothing, and returns that plan: no rule
    /// binds at any of its nodes. A plan that no rule changes is returned as
    /// it is. Gives up after `MAX_PASSES` passes, which
    /// rules that undo each other (join commutation) can exhaust.
    pub fn find_best_plan(&self) -> (r: Result<Plan, OptimizerError>)
        requires
            self.wf(),
        ensures
            match r {
                Ok(p) => p.wf() && settled(p.nodes@, self.rules@),
                Err(e) => e == OptimizerError::InvariantViolation,
            },
            settled(self.plan.nodes@, self.rules@) ==> match r {
                Ok(p) => same_nodes(p, self.plan),
                Err(_) => false,
            },
    {
        if is_settled(&self.rules, &self.plan.nodes) {
            let p = copy_plan(&self.plan);
            proof {
                assert forall|a: int| 0 <= a < p.nodes@.len() implies #[trigger] settled_at(
                    p.nodes@,
                    a,
                    self.rules@,
                ) by {
                    assert(settled_at(self.plan.nodes@, a, self.rules@));
                    assert forall|x: int|
                        #![trigger self.rules@[x]]
                        0 <= x < self.rules@.len() implies rule_settled_at(
                        p.nodes@,
                        a,
                        self.rules@,
                        x,
                    ) by {
                        assert(rule_settled_at(self.plan.nodes@, a, self.rules@, x));
                        if p.nodes@[a].inputs@.len() > 0 {
                            let c = p.nodes@[a].inputs@[0] as int;
                            assert(c < a);
                        }
                        assert(plan_binding(p.nodes@, a, self.rules@[x].id()) == plan_binding(
                            self.plan.nodes@,
                            a,
                            self.rules@[x].id(),
                        ));
                    }
                }
            }
            return Ok(p);
        }
        let start = compact(&self.plan);
        let mut cur = match run_pass(&self.rules, &start) {
            Ok((p, changed)) => {
                if !changed {
                    return Ok(p);
                }
                p
            },
            Err(e) => {
                return Err(e);
            },
        };
        let mut pass: usize = 1;
        while pass < MAX_PASSES
            invariant
                cur.wf(),
                !settled(self.plan.nodes@, self.rules@),
            decreases MAX_PASSES - pass,
        {
            let compacted = compact(&cur);
            match run_pass(&self.rules, &compacted) {
                Ok((p, changed)) => {
                    if !changed {
                        return Ok(p);
                    }
                    cur = p;
                },
                Err(e) => {
                    return Err(e);
                },
            }
            pass = pass + 1;
        }
        Err(OptimizerError::InvariantViolation)
    }
}

} // verus!

verus! {

/// The nodes of `plan` that its root reaches, in their order, with inputs
/// renumbered.
fn compact(plan: &Plan) -> (r: Plan)
    requires
        plan.wf(),
    ensures
        r.wf(),
        r.nodes@.len() <= plan.nodes@.len(),
{
    let n = plan.nodes.len();
    let mut reach: Vec<bool> = Vec::new();
    let mut i: usize = 0;
    while i < n
        invariant
            i <= n,
            reach@.len() == i,
        decreases n - i,
    {
        reach.push(false);
        i = i + 1;
    }
    reach.set(plan.root, true);
    let mut i: usize = n;
    while i > 0
        invariant
            plan.wf(),
            n == plan.nodes@.len(),
            i <= n,
            reach@.len() == n,
            reach@[plan.root as int],
            forall|a: int, k: int|
                i <= a < n && reach@[a] && 0 <= k < plan.nodes@[a].inputs@.len()
                    ==> reach@[plan.nodes@[a].inputs@[k] as int],
        decreases i,
    {
        i = i - 1;
        if reach[i] {
            let node = &plan.nodes[i];
            let mut k: usize = 0;
            while k < node.inputs.len()
                invariant
                    plan.wf(),
                    n == plan.nodes@.len(),
                    i < n,
                    *node == plan.nodes@[i as int],
                    reach@.len() == n,
                    reach@[plan.root as int],
                    reach@[i as int],
                    k <= node.inputs@.len(),
                    forall|j: int| 0 <= j < k ==> reach@[node.inputs@[j] as int],
                    forall|a: int, m: int|
                        i < a < n && reach@[a] && 0 <= m < plan.nodes@[a].inputs@.len()
                            ==> reach@[plan.nodes@[a].inputs@[m] as int],
                decreases node.inputs@.len() - k,
            {
                let c = node.inputs[k];
                reach.set(c, true);
                k = k + 1;
            }
        }
    }
    let mut out: Vec<PlanNode> = Vec::new();
    let mut new_index: Vec<usize> = Vec::new();
    let mut i: usize = 0;
    while i < n
        invariant
            plan.wf(),
            n == plan.nodes@.len(),
            i <= n,
            reach@.len() == n,
            reach@[plan.root as int],
            forall|a: int, k: int|
                0 <= a < n && reach@[a] && 0 <= k < plan.nodes@[a].inputs@.len()
                    ==> reach@[plan.nodes@[a].inputs@[k] as int],
            new_index@.len() == i,
            out@.len() <= i,
            nodes_wf(out@),
            arities_wf(out@),
            forall|x: int| 0 <= x < i && reach@[x] ==> new_index@[x] < out@.len(),
        decreases n - i,
    {
        if reach[i] {
            let node = &plan.nodes[i];
            let mut inputs: Vec<usize> = Vec::new();
            let mut k: usize = 0;
            while k < node.inputs.len()
                invariant
                    plan.wf(),
                    n == plan.nodes@.len(),
                    i < n,
                    *node == plan.nodes@[i as int],
                    reach@.len() == n,
                    reach@[i as int],
                    forall|a: int, m: int|
                        0 <= a < n && reach@[a] && 0 <= m < plan.nodes@[a].inputs@.len()
                            ==> reach@[plan.nodes@[a].inputs@[m] as int],
                    new_index@.len() == i,
                    forall|x: int| 0 <= x < i && reach@[x] ==> new_index@[x] < out@.len(),
                    k <= node.inputs@.len(),
                    inputs@.len() == k,
                    forall|x: int| 0 <= x < k ==> inputs@[x] < out@.len(),
                decreases node.inputs@.len() - k,
            {
                let c = node.inputs[k];
                assert(c < i);
                assert(reach@[c as int]);
                inputs.push(new_index[c]);
                k = k + 1;
            }
            let ghost before = out@;
            let j = out.len();
            out.push(PlanNode { operator: node.operator.deep_clone(), inputs });
            proof {
                assert forall|a: int, b: int|
                    0 <= a < out@.len() && 0 <= b < out@[a].inputs@.len() implies out@[a].inputs@[b]
                    < a by {
                    if a < before.len() {
                        assert(out@[a] == before[a]);
                    }
                }
                assert forall|a: int|
                    0 <= a < out@.len() implies out@[a].inputs@.len()
                    == out@[a].operator.view().arity() by {
                    if a < before.len() {
                        assert(out@[a] == before[a]);
                    }
                }
            }
            new_index.push(j);
        } else {
            new_index.push(0);
        }
        i = i + 1;
    }
    Plan { nodes: out, root: new_index[plan.root] }
}

} // verus!
