//! The Cascades optimizer: explores the memo with the rules, costs every
//! physical expression, and extracts the cheapest plan.
use vstd::prelude::*;
use crate::cost::{Cost, CostModel, INF_COST, cost_add, operator_cost};
use crate::error::OptimizerError;
use crate::memo::{MAX_EXPRS, Memo, any_props};
use crate::operator::OperatorV;
use crate::plan::{Plan, PlanNode, arities_wf, nodes_wf};
use crate::properties::{PhysicalPropertySet, delivered_by, delivered_properties, satisfies};
use crate::rules::{
    CommutateJoinRule, Join2HashJoinRule, OptExpression, OptExpressionV, PushLimitOverProjectionRule,
    PushLimitToTableScanRule, RemoveLimitRule, RuleId, RulePromise, RuleResult, Scan2TableScanRule,
    apply_rule, kind_matches, opt_exprs_view, rule_output, operator_matches, rule_impl_pattern, rule_impl_promise, rule_pattern,
};

verus! {

/// Whether `b` is a binding of rule `id` at expression `e`: the rule's root
/// pattern accepts `e`, and for a two-level pattern `child` is a member of
/// `e`'s first input group that the child pattern accepts.
pub open spec fn is_binding(m: Memo, e: int, id: RuleId, b: OptExpressionV) -> bool {
    let top = m.exprs@[e];
    let p = rule_pattern(id);
    &&& kind_matches(p.top, top.operator.view())
    &&& match p.child {
        None => b == OptExpressionV::Node { operator: top.operator.view(), inputs: top.inputs@ },
        Some(ck) => exists|x: int|
            0 <= x < m.exprs@.len() && top.inputs@.len() > 0 && m.exprs@[x].group
                == top.inputs@[0] && kind_matches(ck, m.exprs@[x].operator.view()) && b
                == OptExpressionV::Stacked {
                operator: top.operator.view(),
                child: m.exprs@[x].operator.view(),
                inputs: m.exprs@[x].inputs@,
            },
    }
}

/// The two-level binding at expression `e` with member `x` of its first
/// input group as child.
pub open spec fn stacked_at(m: Memo, e: int, x: int) -> OptExpressionV {
    OptExpressionV::Stacked {
        operator: m.exprs@[e].operator.view(),
        child: m.exprs@[x].operator.view(),
        inputs: m.exprs@[x].inputs@,
    }
}

/// A binding always has the shape its rule expects, so the rule fires.
pub proof fn lemma_binding_fires(m: Memo, e: int, id: RuleId, b: OptExpressionV)
    requires
        m.wf(),
        0 <= e < m.exprs@.len(),
        is_binding(m, e, id, b),
    ensures
        rule_output(id, b) is Some,
{
    assert(m.exprs_wf());
    let top = m.exprs@[e];
    assert(top.inputs@.len() == top.operator.view().arity());
}

/// `after` is `before` once rule `id` has had its turn at expression `e`:
/// the rule is recorded as fired, and where it already was nothing changed.
pub open spec fn fired(before: Memo, after: Memo, e: int, id: RuleId) -> bool {
    &&& 0 <= e < before.exprs@.len() <= after.exprs@.len()
    &&& after.exprs@[e].has_applied(id)
    &&& before.exprs@[e].has_applied(id) ==> after == before
}

impl Memo {
    /// All bindings of rule `id` at expression `e`.
    pub fn bind(&self, e: usize, id: RuleId) -> (r: Vec<OptExpression>)
        requires
            self.wf(),
            e < self.exprs@.len(),
        ensures
            forall|i: int| 0 <= i < r@.len() ==> is_binding(*self, e as int, id, r@[i].view()),
            rule_pattern(id).child is None && kind_matches(
                rule_pattern(id).top,
                self.exprs@[e as int].operator.view(),
            ) ==> r@.len() == 1,
            rule_pattern(id).child is Some && kind_matches(
                rule_pattern(id).top,
                self.exprs@[e as int].operator.view(),
            ) && self.exprs@[e as int].inputs@.len() > 0 ==> forall|m: int|
                #![trigger self.groups@[self.exprs@[e as int].inputs@[0] as int].exprs@[m]]
                0 <= m < self.groups@[self.exprs@[e as int].inputs@[0] as int].exprs@.len()
                    && kind_matches(
                    rule_pattern(id).child->0,
                    self.exprs@[self.groups@[self.exprs@[e as int].inputs@[0] as int].exprs@[m] as int].operator.view(),
                ) ==> exists|i: int|
                    0 <= i < r@.len() && r@[i].view() == stacked_at(
                        *self,
                        e as int,
                        self.groups@[self.exprs@[e as int].inputs@[0] as int].exprs@[m] as int,
                    ),
    {
        let mut out: Vec<OptExpression> = Vec::new();
        let p = rule_impl_pattern(id);
        let top = &self.exprs[e];
        if !operator_matches(p.top, &top.operator) {
            return out;
        }
        match p.child {
            None => {
                out.push(
                    OptExpression::Node {
                        operator: top.operator.deep_clone(),
                        inputs: top.inputs.clone(),
                    },
                );
                out
            },
            Some(ck) => {
                if top.inputs.len() == 0 {
                    return out;
                }
                let c = top.inputs[0];
                assert(self.exprs_wf());
                assert(c < self.groups@.len());
                let members = &self.groups[c].exprs;
                let mut k: usize = 0;
                while k < members.len()
                    invariant
                        self.wf(),
                        e < self.exprs@.len(),
                        *top == self.exprs@[e as int],
                        top.inputs@.len() > 0,
                        c == top.inputs@[0],
                        c < self.groups@.len(),
                        *members == self.groups@[c as int].exprs,
                        p == rule_pattern(id),
                        p.child == Some(ck),
                        kind_matches(p.top, top.operator.view()),
                        k <= members@.len(),
                        forall|i: int|
                            0 <= i < out@.len() ==> is_binding(*self, e as int, id, out@[i].view()),
                        forall|m: int|
                            0 <= m < k && kind_matches(
                                ck,
                                self.exprs@[members@[m] as int].operator.view(),
                            ) ==> exists|i: int|
                                0 <= i < out@.len() && out@[i].view() == stacked_at(
                                    *self,
                                    e as int,
                                    members@[m] as int,
                                ),
                    decreases members@.len() - k,
                {
                    let x = members[k];
                    assert(self.members_wf());
                    let child = &self.exprs[x];
                    if operator_matches(ck, &child.operator) {
                        let b = OptExpression::Stacked {
                            operator: top.operator.deep_clone(),
                            child: child.operator.deep_clone(),
                            inputs: child.inputs.clone(),
                        };
                        assert(is_binding(*self, e as int, id, b.view()));
                        let ghost before = out@;
                        out.push(b);
                        proof {
                            assert(out@[before.len() as int].view() == stacked_at(*self, e as int, x as int));
                            assert forall|m: int|
                                0 <= m < k + 1 && kind_matches(
                                    ck,
                                    self.exprs@[members@[m] as int].operator.view(),
                                ) implies exists|i: int|
                                0 <= i < out@.len() && out@[i].view() == stacked_at(
                                    *self,
                                    e as int,
                                    members@[m] as int,
                                ) by {
                                if m < k {
                                    let i = choose|i: int|
                                        0 <= i < before.len() && before[i].view() == stacked_at(
                                            *self,
                                            e as int,
                                            members@[m] as int,
                                        );
                                    assert(out@[i] == before[i]);
                                }
                            }
                        }
                    }
                    k = k + 1;
                }
                out
            },
        }
    }
}

} // verus!

verus! {

/// Every rule recorded as fired in `before` is still recorded in `after`,
/// whose expressions keep their operators and inputs.
pub open spec fn applied_grows(before: Memo, after: Memo) -> bool {
    &&& before.exprs@.len() <= after.exprs@.len()
    &&& before.groups@.len() <= after.groups@.len()
    &&& forall|i: int|
        0 <= i < before.exprs@.len() ==> after.exprs@[i].key() == before.exprs@[i].key()
            && after.exprs@[i].group == before.exprs@[i].group
    &&& forall|i: int, x: RuleId|
        0 <= i < before.exprs@.len() && #[trigger] before.exprs@[i].has_applied(x)
            ==> after.exprs@[i].has_applied(x)
}

pub proof fn lemma_applied_grows_trans(a: Memo, b: Memo, c: Memo)
    requires
        applied_grows(a, b),
        applied_grows(b, c),
    ensures
        applied_grows(a, c),
{
    assert forall|i: int, x: RuleId|
        0 <= i < a.exprs@.len() && #[trigger] a.exprs@[i].has_applied(x) implies c.exprs@[i].has_applied(
        x,
    ) by {
        assert(b.exprs@[i].has_applied(x));
    }
}

pub open spec fn rule_impl_promise_of(rule: RuleImpl) -> RulePromise {
    crate::rules::rule_promise_of(rule.id())
}

/// Every logical expression of `m` has had each rule of `rules` fired on it.
pub open spec fn explored(m: Memo, rules: Seq<RuleImpl>) -> bool {
    forall|e: int, r: int|
        0 <= e < m.exprs@.len() && m.exprs@[e].operator.view().is_logical() && 0 <= r < rules.len()
            ==> #[trigger] m.exprs@[e].has_applied(rules[r].id())
}

/// `after` keeps every expression of `before` unchanged, and may add more.
pub open spec fn extends(before: Memo, after: Memo) -> bool {
    &&& before.exprs@.len() <= after.exprs@.len()
    &&& before.groups@.len() <= after.groups@.len()
    &&& after.root == before.root
    &&& forall|i: int| 0 <= i < before.exprs@.len() ==> after.exprs@[i] == before.exprs@[i]
}

/// `op` over `inputs` is a well-formed expression in a memo of `n` groups
/// that does not take group `g` as input.
pub open spec fn output_fits(op: OperatorV, inputs: Seq<usize>, n: nat, g: int) -> bool {
    &&& inputs.len() == op.arity()
    &&& forall|k: int| 0 <= k < inputs.len() ==> inputs[k] < n && inputs[k] != g
}

/// Some expression of `m` is `op` over `inputs`.
pub open spec fn has_key(m: Memo, op: OperatorV, inputs: Seq<usize>) -> bool {
    exists|x: int| 0 <= x < m.exprs@.len() && m.exprs@[x].key() == (op, inputs)
}

/// What a rule emitted for a binding in group `g`, of a memo that then had
/// `n` groups, is in `m`: the expression itself, and for a two-level output
/// the outer operator over the inner expression's group, unless that group
/// is `g`. An output that does not fit is dropped.
pub open spec fn output_in_memo(m: Memo, g: int, n: nat, o: OptExpressionV) -> bool {
    match o {
        OptExpressionV::Node { operator, inputs } => output_fits(operator, inputs, n, g) ==> has_key(
            m,
            operator,
            inputs,
        ),
        OptExpressionV::Stacked { operator, child, inputs } => output_fits(child, inputs, n, g)
            && operator.arity() == 1 ==> exists|x: int|
            0 <= x < m.exprs@.len() && m.exprs@[x].key() == (child, inputs) && (m.exprs@[x].group
                == g || has_key(m, operator, seq![m.exprs@[x].group])),
    }
}

/// `b` is a binding of rule `id` at expression `e` that the engine
/// enumerates: the expression itself for a one-level pattern, or it over a
/// listed member of its first input group for a two-level one.
pub open spec fn listed_binding(m: Memo, e: int, id: RuleId, b: OptExpressionV) -> bool {
    let top = m.exprs@[e];
    let p = rule_pattern(id);
    &&& kind_matches(p.top, top.operator.view())
    &&& match p.child {
        None => b == OptExpressionV::Node { operator: top.operator.view(), inputs: top.inputs@ },
        Some(ck) => top.inputs@.len() > 0 && exists|k: int|
            0 <= k < m.groups@[top.inputs@[0] as int].exprs@.len() && kind_matches(
                ck,
                m.exprs@[m.groups@[top.inputs@[0] as int].exprs@[k] as int].operator.view(),
            ) && b == stacked_at(m, e, m.groups@[top.inputs@[0] as int].exprs@[k] as int),
    }
}

/// What is in a memo stays there as it grows.
pub proof fn lemma_output_stays(m1: Memo, m2: Memo, g: int, n: nat, o: OptExpressionV)
    requires
        output_in_memo(m1, g, n, o),
        extends(m1, m2),
    ensures
        output_in_memo(m2, g, n, o),
{
    match o {
        OptExpressionV::Node { operator, inputs } => {
            if output_fits(operator, inputs, n, g) {
                let x = choose|x: int| 0 <= x < m1.exprs@.len() && m1.exprs@[x].key() == (operator, inputs);
                assert(m2.exprs@[x] == m1.exprs@[x]);
            }
        },
        OptExpressionV::Stacked { operator, child, inputs } => {
            if output_fits(child, inputs, n, g) && operator.arity() == 1 {
                let x = choose|x: int|
                    0 <= x < m1.exprs@.len() && m1.exprs@[x].key() == (child, inputs) && (
                    m1.exprs@[x].group == g || has_key(m1, operator, seq![m1.exprs@[x].group]));
                assert(m2.exprs@[x] == m1.exprs@[x]);
                if m1.exprs@[x].group != g {
                    let y = choose|y: int|
                        0 <= y < m1.exprs@.len() && m1.exprs@[y].key() == (
                            operator,
                            seq![m1.exprs@[x].group],
                        );
                    assert(m2.exprs@[y] == m1.exprs@[y]);
                }
            }
        },
    }
}

fn inputs_in_range(inputs: &Vec<usize>, n: usize, avoid: usize) -> (r: bool)
    ensures
        r == forall|k: int| 0 <= k < inputs@.len() ==> inputs@[k] < n && inputs@[k] != avoid,
{
    let mut k: usize = 0;
    while k < inputs.len()
        invariant
            k <= inputs@.len(),
            forall|j: int| 0 <= j < k ==> inputs@[j] < n && inputs@[j] != avoid,
        decreases inputs@.len() - k,
    {
        if inputs[k] >= n || inputs[k] == avoid {
            return false;
        }
        k = k + 1;
    }
    true
}

impl Memo {
    /// Adds what a rule emitted for a binding in group `g` to `g`. An
    /// expression that would take its own group as input, or that is
    /// malformed, is dropped; the only error is a full memo.
    fn insert_output(&mut self, out: &OptExpression, g: usize) -> (r: Result<(), OptimizerError>)
        requires
            old(self).wf(),
            g < old(self).groups@.len(),
        ensures
            final(self).wf(),
            extends(*old(self), *final(self)),
            r is Err ==> r->Err_0 == OptimizerError::InvariantViolation && old(self).exprs@.len()
                + 2 >= MAX_EXPRS,
            r is Ok ==> output_in_memo(*final(self), g as int, old(self).groups@.len(), out.view()),
    {
        if self.exprs.len() >= MAX_EXPRS - 2 {
            return Err(OptimizerError::InvariantViolation);
        }
        match out {
            OptExpression::Node { operator, inputs } => {
                if inputs.len() != operator.arity() {
                    return Ok(());
                }
                if !inputs_in_range(inputs, self.groups.len(), g) {
                    return Ok(());
                }
                let (x, _, _) = self.insert_expr(operator.deep_clone(), inputs.clone(), Some(g));
                assert(self.exprs@[x as int].key() == (operator.view(), inputs@));
                Ok(())
            },
            OptExpression::Stacked { operator, child, inputs } => {
                if inputs.len() != child.arity() || operator.arity() != 1 {
                    return Ok(());
                }
                if !inputs_in_range(inputs, self.groups.len(), g) {
                    return Ok(());
                }
                let (x, cg, _) = self.insert_expr(child.deep_clone(), inputs.clone(), None);
                assert(self.exprs@[x as int].key() == (child.view(), inputs@));
                if cg == g {
                    return Ok(());
                }
                let ghost mid = *self;
                let (y, _, _) = self.insert_expr(operator.deep_clone(), vec![cg], Some(g));
                proof {
                    assert(self.exprs@[x as int] == mid.exprs@[x as int]);
                    assert(self.exprs@[y as int].key() == (operator.view(), seq![cg]));
                    assert(has_key(*self, operator.view(), seq![self.exprs@[x as int].group]));
                }
                Ok(())
            },
        }
    }

    /// Gives rule `id` its turn at expression `e`: unless it already fired
    /// there, records it as fired, binds it, and adds what it emits to `e`'s
    /// group.
    pub fn fire_rule(&mut self, e: usize, id: RuleId) -> (r: Result<(), OptimizerError>)
        requires
            old(self).wf(),
            e < old(self).exprs@.len(),
        ensures
            final(self).wf(),
            fired(*old(self), *final(self), e as int, id),
            old(self).exprs@[e as int].has_applied(id) ==> r is Ok,
            applied_grows(*old(self), *final(self)),
            r is Err ==> r->Err_0 == OptimizerError::InvariantViolation && final(self).exprs@.len()
                + 2 >= MAX_EXPRS,
            r is Ok && !old(self).exprs@[e as int].has_applied(id) ==> forall|b: OptExpressionV, k: int|
                #![trigger listed_binding(*old(self), e as int, id, b), rule_output(id, b)->0[k]]
                listed_binding(*old(self), e as int, id, b) && 0 <= k < rule_output(id, b)->0.len()
                    ==> output_in_memo(
                    *final(self),
                    old(self).exprs@[e as int].group as int,
                    old(self).groups@.len(),
                    rule_output(id, b)->0[k],
                ),
            final(self).groups@.len() >= old(self).groups@.len(),
            final(self).root == old(self).root,
    {
        if self.has_applied(e, id) {
            return Ok(());
        }
        let ghost start = *self;
        self.mark_applied(e, id);
        let ghost marked = *self;
        let ghost n = start.groups@.len();
        let g = self.exprs[e].group;
        let bindings = self.bind(e, id);
        let mut i: usize = 0;
        while i < bindings.len()
            invariant
                self.wf(),
                e < marked.exprs@.len(),
                marked.exprs@[e as int].has_applied(id),
                !start.exprs@[e as int].has_applied(id),
                start == *old(self),
                marked.wf(),
                forall|j: int|
                    0 <= j < bindings@.len() ==> is_binding(marked, e as int, id, bindings@[j].view()),
                start.exprs@.len() == marked.exprs@.len(),
                start.groups@.len() == marked.groups@.len(),
                n == start.groups@.len(),
                start.root == marked.root,
                applied_grows(start, marked),
                extends(marked, *self),
                g < self.groups@.len(),
                i <= bindings@.len(),
                forall|a: int, k: int|
                    0 <= a < i && 0 <= k < rule_output(id, bindings@[a].view())->0.len()
                        ==> output_in_memo(*self, g as int, n, rule_output(id, bindings@[a].view())->0[k]),
            decreases bindings@.len() - i,
        {
            let mut result = RuleResult::new();
            proof {
                lemma_binding_fires(marked, e as int, id, bindings@[i as int].view());
            }
            match apply_rule(id, &bindings[i], &mut result) {
                Ok(()) => {},
                Err(err) => {
                    return Err(err);
                },
            }
            let ghost outs = rule_output(id, bindings@[i as int].view())->0;
            proof {
                assert(opt_exprs_view(result.exprs@) =~= outs);
            }
            let mut j: usize = 0;
            while j < result.exprs.len()
                invariant
                    self.wf(),
                    e < marked.exprs@.len(),
                    marked.exprs@[e as int].has_applied(id),
                    !start.exprs@[e as int].has_applied(id),
                    start == *old(self),
                    start.exprs@.len() == marked.exprs@.len(),
                    start.groups@.len() == marked.groups@.len(),
                    n == start.groups@.len(),
                    start.root == marked.root,
                    applied_grows(start, marked),
                    extends(marked, *self),
                    g < self.groups@.len(),
                    j <= result.exprs@.len(),
                    i < bindings@.len(),
                    outs == rule_output(id, bindings@[i as int].view())->0,
                    opt_exprs_view(result.exprs@) == outs,
                    forall|a: int, k: int|
                        0 <= a < i && 0 <= k < rule_output(id, bindings@[a].view())->0.len()
                            ==> output_in_memo(*self, g as int, n, rule_output(id, bindings@[a].view())->0[k]),
                    forall|k: int| 0 <= k < j ==> output_in_memo(*self, g as int, n, outs[k]),
                decreases result.exprs@.len() - j,
            {
                let ghost before = *self;
                match self.insert_output(&result.exprs[j], g) {
                    Ok(()) => {},
                    Err(err) => {
                        return Err(err);
                    },
                }
                proof {
                    assert(result.exprs@[j as int].view() == outs[j as int]);
                    assert forall|a: int, k: int|
                        0 <= a < i && 0 <= k < rule_output(id, bindings@[a].view())->0.len()
                            implies output_in_memo(*self, g as int, n, rule_output(id, bindings@[a].view())->0[k]) by {
                        lemma_output_stays(before, *self, g as int, n, rule_output(id, bindings@[a].view())->0[k]);
                    }
                    assert forall|k: int| 0 <= k < j + 1 implies output_in_memo(*self, g as int, n, outs[k]) by {
                        if k < j {
                            lemma_output_stays(before, *self, g as int, n, outs[k]);
                        }
                    }
                }
                j = j + 1;
            }
            i = i + 1;
        }
        proof {
            let ge = start.exprs@[e as int].group as int;
            assert(ge == g);
            assert forall|b: OptExpressionV, k: int|
                #![trigger listed_binding(start, e as int, id, b), rule_output(id, b)->0[k]]
                listed_binding(start, e as int, id, b) && 0 <= k < rule_output(id, b)->0.len()
                implies output_in_memo(*self, ge, n, rule_output(id, b)->0[k]) by {
                assert(start.exprs@[e as int].key() == marked.exprs@[e as int].key());
                match rule_pattern(id).child {
                    None => {
                        assert(is_binding(marked, e as int, id, bindings@[0].view()));
                        assert(bindings@[0].view() == b);
                    },
                    Some(ck) => {
                        let top = start.exprs@[e as int];
                        let c = top.inputs@[0] as int;
                        let kk = choose|kk: int|
                            0 <= kk < start.groups@[c].exprs@.len() && kind_matches(
                                ck,
                                start.exprs@[start.groups@[c].exprs@[kk] as int].operator.view(),
                            ) && b == stacked_at(start, e as int, start.groups@[c].exprs@[kk] as int);
                        let x = start.groups@[c].exprs@[kk] as int;
                        assert(start.members_wf());
                        assert(marked.exprs@[x].key() == start.exprs@[x].key());
                        assert(marked.exprs@[e as int].inputs@ == top.inputs@);
                        assert(marked.groups@[c].exprs@[kk] == start.groups@[c].exprs@[kk]);
                        assert(stacked_at(marked, e as int, x) == b);
                        let a = choose|a: int| 0 <= a < bindings@.len() && bindings@[a].view() == stacked_at(marked, e as int, x);
                        assert(bindings@[a].view() == b);
                    },
                }
            }
        }
        Ok(())
    }
}

} // verus!

verus! {

/// One of the rules, as handed to an optimizer.
#[derive(Clone, Copy, Debug)]
pub enum RuleImpl {
    CommutateJoin(CommutateJoinRule),
    Join2HashJoin(Join2HashJoinRule),
    Scan2TableScan(Scan2TableScanRule),
    RemoveLimit(RemoveLimitRule),
    PushLimitOverProjection(PushLimitOverProjectionRule),
    PushLimitToTableScan(PushLimitToTableScanRule),
}

impl RuleImpl {
    pub open spec fn id(&self) -> RuleId {
        match self {
            RuleImpl::CommutateJoin(_) => RuleId::CommutateJoin,
            RuleImpl::Join2HashJoin(_) => RuleId::Join2HashJoin,
            RuleImpl::Scan2TableScan(_) => RuleId::Scan2TableScan,
            RuleImpl::RemoveLimit(_) => RuleId::RemoveLimit,
            RuleImpl::PushLimitOverProjection(_) => RuleId::PushLimitOverProjection,
            RuleImpl::PushLimitToTableScan(_) => RuleId::PushLimitToTableScan,
        }
    }

    pub fn rule_id(&self) -> (r: RuleId)
        ensures
            r == self.id(),
    {
        match self {
            RuleImpl::CommutateJoin(_) => RuleId::CommutateJoin,
            RuleImpl::Join2HashJoin(_) => RuleId::Join2HashJoin,
            RuleImpl::Scan2TableScan(_) => RuleId::Scan2TableScan,
            RuleImpl::RemoveLimit(_) => RuleId::RemoveLimit,
            RuleImpl::PushLimitOverProjection(_) => RuleId::PushLimitOverProjection,
            RuleImpl::PushLimitToTableScan(_) => RuleId::PushLimitToTableScan,
        }
    }
}

/// What the optimizer consults while it works; the operators here need no
/// catalog, so it is empty.
#[derive(Clone, Copy, Debug)]
pub struct OptimizerContext {}

impl OptimizerContext {
    pub fn new() -> (r: OptimizerContext) {
        OptimizerContext {}
    }
}

pub struct CascadesOptimizer {
    pub required_prop: PhysicalPropertySet,
    pub rules: Vec<RuleImpl>,
    pub memo: Memo,
    pub context: OptimizerContext,
    pub cost_model: CostModel,
    /// Plans costing more are not accepted; the largest cost by default.
    pub cost_bound: Cost,
}

impl CascadesOptimizer {
    pub open spec fn wf(&self) -> bool {
        &&& self.memo.wf()
        &&& self.memo.root < self.memo.groups@.len()
    }

    /// An optimizer for `plan`, with the plan already in the memo.
    pub fn new(
        required_prop: PhysicalPropertySet,
        rules: Vec<RuleImpl>,
        plan: Plan,
        context: OptimizerContext,
        cost_model: CostModel,
    ) -> (r: CascadesOptimizer)
        requires
            plan.wf(),
            plan.nodes@.len() < MAX_EXPRS,
        ensures
            r.wf(),
            r.required_prop == required_prop,
            r.rules@ == rules@,
            r.context == context,
            r.cost_model == cost_model,
            r.cost_bound == crate::cost::inf(),
            exists|map: Seq<usize>| crate::memo::ingested(r.memo, plan, map),
    {
        let memo = match Memo::from_plan(&plan) {
            Ok(m) => {
                proof {
                    let map = choose|map: Seq<usize>| crate::memo::ingested(m, plan, map);
                    assert(crate::memo::ingested(m, plan, map));
                }
                m
            },
            Err(_) => {
                proof {
                    assert(false);
                }
                Memo::new()
            },
        };
        CascadesOptimizer {
            required_prop,
            rules,
            memo,
            context,
            cost_model,
            cost_bound: crate::cost::inf_cost(),
        }
    }

    /// An optimizer for `plan` with no rules and no required properties.
    pub fn default(plan: Plan) -> (r: CascadesOptimizer)
        requires
            plan.wf(),
            plan.nodes@.len() < MAX_EXPRS,
        ensures
            r.wf(),
            r.required_prop == any_props(),
            r.rules@.len() == 0,
            r.cost_bound == crate::cost::inf(),
            exists|map: Seq<usize>| crate::memo::ingested(r.memo, plan, map),
    {
        CascadesOptimizer::new(
            PhysicalPropertySet::any(),
            Vec::new(),
            plan,
            OptimizerContext::new(),
            CostModel::new(),
        )
    }

    /// Accepts only plans that cost at most `bound`.
    pub fn set_cost_bound(&mut self, bound: Cost)
        requires
            old(self).wf(),
        ensures
            final(self).wf(),
            final(self).cost_bound == bound,
            final(self).required_prop == old(self).required_prop,
            final(self).rules@ == old(self).rules@,
    {
        self.cost_bound = bound;
    }

    /// Fires every rule of promise `promise` at expression `e`, in the order
    /// of `rules`.
    fn fire_rules_at(&mut self, e: usize, promise: RulePromise) -> (r: Result<(), OptimizerError>)
        requires
            old(self).wf(),
            e < old(self).memo.exprs@.len(),
        ensures
            final(self).wf(),
            final(self).memo.exprs@.len() >= old(self).memo.exprs@.len(),
            final(self).required_prop == old(self).required_prop,
            final(self).cost_bound == old(self).cost_bound,
            final(self).rules@ == old(self).rules@,
            final(self).memo.root == old(self).memo.root,
            applied_grows(old(self).memo, final(self).memo),
            r is Err ==> r->Err_0 == OptimizerError::InvariantViolation
                && final(self).memo.exprs@.len() + 2 >= MAX_EXPRS,
            r is Ok ==> forall|x: int|
                0 <= x < final(self).rules@.len() && rule_impl_promise_of(final(self).rules@[x])
                    == promise ==> #[trigger] final(self).memo.exprs@[e as int].has_applied(
                    final(self).rules@[x].id(),
                ),
            (forall|x: int|
                0 <= x < old(self).rules@.len() ==> #[trigger] old(self).memo.exprs@[e as int].has_applied(
                    old(self).rules@[x].id(),
                )) ==> final(self).memo == old(self).memo && r is Ok,
    {
        let mut i: usize = 0;
        while i < self.rules.len()
            invariant
                self.wf(),
                e < self.memo.exprs@.len(),
                i <= self.rules@.len(),
                self.memo.exprs@.len() >= old(self).memo.exprs@.len(),
                self.required_prop == old(self).required_prop,
                self.cost_bound == old(self).cost_bound,
                self.rules@ == old(self).rules@,
                self.memo.root == old(self).memo.root,
                applied_grows(old(self).memo, self.memo),
                forall|x: int|
                    0 <= x < i && rule_impl_promise_of(self.rules@[x]) == promise
                        ==> #[trigger] self.memo.exprs@[e as int].has_applied(self.rules@[x].id()),
                (forall|x: int|
                    0 <= x < old(self).rules@.len() ==> #[trigger] old(self).memo.exprs@[e as int].has_applied(
                        old(self).rules@[x].id(),
                    )) ==> self.memo == old(self).memo,
            decreases self.rules@.len() - i,
        {
            let id = self.rules[i].rule_id();
            proof {
                let rr = self.rules@[i as int];
                if forall|x: int|
                    0 <= x < old(self).rules@.len() ==> #[trigger] old(self).memo.exprs@[e as int].has_applied(
                        old(self).rules@[x].id(),
                    ) {
                    assert(old(self).memo.exprs@[e as int].has_applied(old(self).rules@[i as int].id()));
                }
            }
            if rule_impl_promise(id) == promise {
                let ghost before = self.memo;
                match self.memo.fire_rule(e, id) {
                    Ok(()) => {},
                    Err(err) => {
                        proof {
                            lemma_applied_grows_trans(old(self).memo, before, self.memo);
                        }
                        return Err(err);
                    },
                }
                proof {
                    lemma_applied_grows_trans(old(self).memo, before, self.memo);
                    assert forall|x: int|
                        0 <= x < i && rule_impl_promise_of(self.rules@[x]) == promise implies #[trigger] self.memo.exprs@[e as int].has_applied(
                        self.rules@[x].id(),
                    ) by {
                        assert(before.exprs@[e as int].has_applied(self.rules@[x].id()));
                    }
                }
            }
            i = i + 1;
        }
        Ok(())
    }

    /// Gives every rule its turn at every logical expression, new ones
    /// included, high-promise rules first.
    fn explore(&mut self) -> (r: Result<(), OptimizerError>)
        requires
            old(self).wf(),
        ensures
            final(self).wf(),
            final(self).required_prop == old(self).required_prop,
            final(self).cost_bound == old(self).cost_bound,
            final(self).rules@ == old(self).rules@,
            final(self).memo.root == old(self).memo.root,
            r is Err ==> r->Err_0 == OptimizerError::InvariantViolation
                && final(self).memo.exprs@.len() + 2 >= MAX_EXPRS,
            r is Ok ==> explored(final(self).memo, final(self).rules@),
            applied_grows(old(self).memo, final(self).memo),
            explored(old(self).memo, old(self).rules@) ==> final(self).memo == old(self).memo && r is Ok,
    {
        let mut e: usize = 0;
        while e < self.memo.exprs.len()
            invariant
                self.wf(),
                e <= self.memo.exprs@.len(),
                self.required_prop == old(self).required_prop,
                self.cost_bound == old(self).cost_bound,
                self.rules@ == old(self).rules@,
                self.memo.root == old(self).memo.root,
                applied_grows(old(self).memo, self.memo),
                explored(old(self).memo, old(self).rules@) ==> self.memo == old(self).memo,
                forall|a: int, r: int|
                    0 <= a < e && self.memo.exprs@[a].operator.view().is_logical() && 0 <= r
                        < self.rules@.len() ==> #[trigger] self.memo.exprs@[a].has_applied(
                        self.rules@[r].id(),
                    ),
            decreases MAX_EXPRS - e,
        {
            let ghost m0 = self.memo;
            if self.memo.exprs[e].operator.is_logical() {
            proof {
                    if explored(old(self).memo, old(self).rules@) {
                        assert forall|x: int|
                            0 <= x < self.rules@.len() implies #[trigger] self.memo.exprs@[e as int].has_applied(
                            self.rules@[x].id(),
                        ) by {
                            if self.memo.exprs@[e as int].operator.view().is_logical() {
                                assert(old(self).memo.exprs@[e as int].has_applied(old(self).rules@[x].id()));
                            }
                        }
                    }
                }
                match self.fire_rules_at(e, RulePromise::HIGH) {
                    Ok(()) => {},
                    Err(err) => {
                        proof {
                            lemma_applied_grows_trans(old(self).memo, m0, self.memo);
                        }
                        return Err(err);
                    },
                }
                let ghost m1 = self.memo;
                match self.fire_rules_at(e, RulePromise::LOW) {
                    Ok(()) => {},
                    Err(err) => {
                        proof {
                            lemma_applied_grows_trans(m0, m1, self.memo);
                            lemma_applied_grows_trans(old(self).memo, m0, self.memo);
                        }
                        return Err(err);
                    },
                }
                proof {
                    lemma_applied_grows_trans(m0, m1, self.memo);
                    lemma_applied_grows_trans(old(self).memo, m0, self.memo);
                    assert forall|a: int, r: int|
                        0 <= a < e + 1 && self.memo.exprs@[a].operator.view().is_logical() && 0 <= r
                            < self.rules@.len() implies #[trigger] self.memo.exprs@[a].has_applied(
                            self.rules@[r].id(),
                        ) by {
                        assert(self.memo.exprs@[a].key() == m0.exprs@[a].key());
                        if a < e {
                            assert(m0.exprs@[a].has_applied(self.rules@[r].id()));
                        } else {
                            let p = rule_impl_promise_of(self.rules@[r]);
                            if p == RulePromise::HIGH {
                                assert(m1.exprs@[a].has_applied(self.rules@[r].id()));
                            }
                        }
                    }
                }
            }
            e = e + 1;
        }
        Ok(())
    }
}

} // verus!

verus! {

/// Every node of `nodes` is physical.
pub open spec fn all_physical(nodes: Seq<PlanNode>) -> bool {
    forall|i: int| 0 <= i < nodes.len() ==> !nodes[i].operator.view().is_logical()
}

impl Memo {
    /// Offers physical expression `x` as winner of its group, for each
    /// property set it delivers, at its own cost plus its inputs' winners'.
    /// Returns whether a winner changed; where none did, every offer `x`
    /// could make lost to a winner no dearer.
    fn cost_expr(&mut self, x: usize, cost_model: &CostModel) -> (changed: bool)
        requires
            old(self).wf(),
            x < old(self).exprs@.len(),
        ensures
            final(self).wf(),
            final(self).exprs@ == old(self).exprs@,
            final(self).groups@.len() == old(self).groups@.len(),
            final(self).root == old(self).root,
            changed ==> potential(final(self).groups@) < potential(old(self).groups@),
            !changed ==> *final(self) == *old(self) && costed_at(*final(self), x as int),
            costed_at(*old(self), x as int) ==> !changed,
    {
        if self.exprs[x].operator.is_logical() {
            return false;
        }
        let mut total: Cost = cost_model.estimate_cost(&self.exprs[x].operator);
        let n = self.exprs[x].inputs.len();
        let ghost ins = self.exprs@[x as int].inputs@;
        let ghost est = operator_cost(self.exprs@[x as int].operator.view());
        let mut k: usize = 0;
        while k < n
            invariant
                self.wf(),
                x < self.exprs@.len(),
                ins == self.exprs@[x as int].inputs@,
                n == ins.len(),
                k <= n,
                forall|j: int| 0 <= j < k ==> self.winner(ins[j] as int, any_props()) is Some,
                total == inputs_total(*self, ins.take(k as int), est),
            decreases n - k,
        {
            let c = self.exprs[x].inputs[k];
            assert(self.exprs_wf());
            match self.winner_of(c, any_props_exec()) {
                Some(w) => {
                    proof {
                        assert(ins.take(k as int + 1).drop_last() =~= ins.take(k as int));
                    }
                    total = total.add(w.cost);
                },
                None => {
                    return false;
                },
            }
            k = k + 1;
        }
        proof {
            assert(ins.take(n as int) =~= ins);
        }
        if total.0 >= INF_COST || !self.inputs_cheaper(x, total) {
            return false;
        }
        let g = self.exprs[x].group;
        assert(self.exprs_wf());
        let delivered = delivered_properties(&self.exprs[x].operator);
        let any = any_props_exec();
        if delivered.satisfies(&any) {
            let better = match self.winner_of(g, any) {
                None => true,
                Some(w) => total.0 < w.cost.0,
            };
            if better {
                proof {
                    assert(candidate_cost(*self, x as int) == total);
                    if costed_at(*self, x as int) {
                        assert(candidate(*self, x as int, any));
                    }
                }
                let ghost before = *self;
                self.update_winner(g, any, x, total);
                proof {
                    assert forall|i: int| 0 <= i < before.groups@.len() && i != g implies group_value(
                        before.groups@[i],
                    ) == group_value(self.groups@[i]) by {
                        assert(self.winner(i, PhysicalPropertySet::any_spec()) == before.winner(
                            i,
                            PhysicalPropertySet::any_spec(),
                        ));
                        assert(self.winner(i, PhysicalPropertySet::single_spec()) == before.winner(
                            i,
                            PhysicalPropertySet::single_spec(),
                        ));
                    }
                    assert(self.winner(g as int, PhysicalPropertySet::single_spec()) == before.winner(
                        g as int,
                        PhysicalPropertySet::single_spec(),
                    ));
                    assert(self.groups@[g as int].winner_any == Some(crate::memo::Winner { expr: x, cost: total }));
                    lemma_potential_lt(before.groups@, self.groups@, g as int);
                }
                return true;
            }
        }
        let single = PhysicalPropertySet::single_partition();
        if delivered.satisfies(&single) {
            let better = match self.winner_of(g, single) {
                None => true,
                Some(w) => total.0 < w.cost.0,
            };
            if better {
                proof {
                    assert(candidate_cost(*self, x as int) == total);
                    if costed_at(*self, x as int) {
                        assert(candidate(*self, x as int, single));
                    }
                }
                let ghost before = *self;
                self.update_winner(g, single, x, total);
                proof {
                    assert forall|i: int| 0 <= i < before.groups@.len() && i != g implies group_value(
                        before.groups@[i],
                    ) == group_value(self.groups@[i]) by {
                        assert(self.winner(i, PhysicalPropertySet::any_spec()) == before.winner(
                            i,
                            PhysicalPropertySet::any_spec(),
                        ));
                        assert(self.winner(i, PhysicalPropertySet::single_spec()) == before.winner(
                            i,
                            PhysicalPropertySet::single_spec(),
                        ));
                    }
                    assert(self.winner(g as int, PhysicalPropertySet::any_spec()) == before.winner(
                        g as int,
                        PhysicalPropertySet::any_spec(),
                    ));
                    assert(self.groups@[g as int].winner_single == Some(crate::memo::Winner { expr: x, cost: total }));
                    lemma_potential_lt(before.groups@, self.groups@, g as int);
                }
                return true;
            }
        }
        proof {
            assert forall|p: PhysicalPropertySet| #[trigger] candidate(*self, x as int, p) implies self.winner(
                g as int,
                p,
            ) is Some && self.winner(g as int, p)->0.cost.0 <= total.0 by {
                if p.distribution is Any {
                    assert(p == any);
                } else {
                    assert(p == single);
                }
            }
        }
        false
    }

    /// Whether every input group of `x` has a winner for `Any` that costs
    /// less than `total`.
    fn inputs_cheaper(&self, x: usize, total: Cost) -> (r: bool)
        requires
            self.wf(),
            x < self.exprs@.len(),
        ensures
            r == forall|k: int|
                0 <= k < self.exprs@[x as int].inputs@.len() ==> self.winner(
                    self.exprs@[x as int].inputs@[k] as int,
                    any_props(),
                ) is Some && self.winner(self.exprs@[x as int].inputs@[k] as int, any_props())->0.cost.0
                    < total.0,
    {
        let n = self.exprs[x].inputs.len();
        let mut k: usize = 0;
        while k < n
            invariant
                self.wf(),
                x < self.exprs@.len(),
                n == self.exprs@[x as int].inputs@.len(),
                k <= n,
                forall|j: int|
                    0 <= j < k ==> self.winner(self.exprs@[x as int].inputs@[j] as int, any_props())
                        is Some && self.winner(
                        self.exprs@[x as int].inputs@[j] as int,
                        any_props(),
                    )->0.cost.0 < total.0,
            decreases n - k,
        {
            let c = self.exprs[x].inputs[k];
            assert(self.exprs_wf());
            match self.winner_of(c, any_props_exec()) {
                Some(w) => {
                    if w.cost.0 >= total.0 {
                        return false;
                    }
                },
                None => {
                    return false;
                },
            }
            k = k + 1;
        }
        true
    }

    /// One pass of `cost_expr` over every expression; returns whether any
    /// winner changed.
    fn cost_round(&mut self, cost_model: &CostModel) -> (changed: bool)
        requires
            old(self).wf(),
        ensures
            final(self).wf(),
            final(self).exprs@ == old(self).exprs@,
            final(self).groups@.len() == old(self).groups@.len(),
            final(self).root == old(self).root,
            changed ==> potential(final(self).groups@) < potential(old(self).groups@),
            !changed ==> *final(self) == *old(self) && costed(*final(self)),
            costed(*old(self)) ==> !changed,
    {
        let mut changed = false;
        let mut x: usize = 0;
        while x < self.exprs.len()
            invariant
                self.wf(),
                self.exprs@ == old(self).exprs@,
                self.groups@.len() == old(self).groups@.len(),
                self.root == old(self).root,
                x <= self.exprs@.len(),
                changed ==> potential(self.groups@) < potential(old(self).groups@),
                !changed ==> *self == *old(self) && forall|y: int|
                    0 <= y < x ==> #[trigger] costed_at(*self, y),
                costed(*old(self)) ==> !changed,
            decreases self.exprs@.len() - x,
        {
            let ghost before = *self;
            proof {
                if costed(*old(self)) {
                    assert(costed_at(*old(self), x as int));
                }
            }
            let c = self.cost_expr(x, cost_model);
            if c {
                changed = true;
            }
            proof {
                if !c {
                    assert(*self == before);
                }
            }
            x = x + 1;
        }
        changed
    }

    /// Costs the memo until a pass changes no winner: then every winner is
    /// no dearer than any candidate of its group.
    fn compute_winners(&mut self, cost_model: &CostModel)
        requires
            old(self).wf(),
        ensures
            final(self).wf(),
            final(self).exprs@ == old(self).exprs@,
            final(self).groups@.len() == old(self).groups@.len(),
            final(self).root == old(self).root,
            costed(*final(self)),
            costed(*old(self)) ==> *final(self) == *old(self),
    {
        let mut changed = true;
        proof {
            lemma_potential_nonneg(self.groups@);
        }
        while changed
            invariant
                self.wf(),
                self.exprs@ == old(self).exprs@,
                self.groups@.len() == old(self).groups@.len(),
                self.root == old(self).root,
                !changed ==> costed(*self),
                potential(self.groups@) >= 0,
                costed(*old(self)) ==> *self == *old(self),
            decreases potential(self.groups@) + if changed { 1int } else { 0int },
        {
            proof {
                lemma_potential_nonneg(self.groups@);
            }
            let ghost before = potential(self.groups@);
            changed = self.cost_round(cost_model);
            proof {
                lemma_potential_nonneg(self.groups@);
            }
        }
    }

    /// Appends to `nodes` the plan made of the winners from group `g` for
    /// `props` down, and returns the index of its root.
    fn extract(&self, g: usize, props: PhysicalPropertySet, nodes: &mut Vec<PlanNode>) -> (r: Result<
        usize,
        OptimizerError,
    >)
        requires
            self.wf(),
            g < self.groups@.len(),
            nodes_wf(old(nodes)@),
            arities_wf(old(nodes)@),
            all_physical(old(nodes)@),
        ensures
            final(nodes)@.len() >= old(nodes)@.len(),
            forall|j: int| 0 <= j < old(nodes)@.len() ==> final(nodes)@[j] == old(nodes)@[j],
            nodes_wf(final(nodes)@),
            arities_wf(final(nodes)@),
            all_physical(final(nodes)@),
            match r {
                Ok(i) => is_winner_tree(*self, g as int, props, final(nodes)@, i as int) && satisfies(
                    delivered_by(final(nodes)@[i as int].operator.view()),
                    props,
                ),
                Err(e) => (e == OptimizerError::NoWinner && self.winner(g as int, props) is None)
                    || (e == OptimizerError::InvariantViolation && self.winner(g as int, props) is Some
                    && final(nodes)@.len() == usize::MAX),
            },
        decreases winner_cost(*self, g as int, props),
    {
        let w = match self.winner_of(g, props) {
            None => {
                return Err(OptimizerError::NoWinner);
            },
            Some(w) => w,
        };
        assert(self.winner_ok(g as int, props));
        let x = &self.exprs[w.expr];
        let mut inputs: Vec<usize> = Vec::new();
        let mut k: usize = 0;
        while k < x.inputs.len()
            invariant
                self.wf(),
                g < self.groups@.len(),
                self.winner(g as int, props) == Some(w),
                self.winner_ok(g as int, props),
                *x == self.exprs@[w.expr as int],
                nodes@.len() >= old(nodes)@.len(),
                forall|j: int| 0 <= j < old(nodes)@.len() ==> nodes@[j] == old(nodes)@[j],
                k <= x.inputs@.len(),
                inputs@.len() == k,
                nodes_wf(nodes@),
                arities_wf(nodes@),
                all_physical(nodes@),
                forall|j: int|
                    0 <= j < k ==> is_winner_tree(
                        *self,
                        x.inputs@[j] as int,
                        any_props(),
                        nodes@,
                        inputs@[j] as int,
                    ),
            decreases x.inputs@.len() - k,
        {
            assert(self.exprs_wf());
            let c = x.inputs[k];
            assert(self.winner(c as int, any_props()) is Some);
            let ghost before = nodes@;
            match self.extract(c, any_props_exec(), nodes) {
                Ok(i) => {
                    proof {
                        assert forall|j: int| 0 <= j < k implies is_winner_tree(
                            *self,
                            x.inputs@[j] as int,
                            any_props(),
                            nodes@,
                            inputs@[j] as int,
                        ) by {
                            lemma_winner_tree_extends(
                                *self,
                                x.inputs@[j] as int,
                                any_props(),
                                before,
                                nodes@,
                                inputs@[j] as int,
                            );
                        }
                    }
                    inputs.push(i);
                },
                Err(e) => {
                    return Err(e);
                },
            }
            k = k + 1;
        }
        if nodes.len() == usize::MAX {
            return Err(OptimizerError::InvariantViolation);
        }
        assert(self.exprs_wf());
        let ghost before = nodes@;
        nodes.push(PlanNode { operator: x.operator.deep_clone(), inputs });
        proof {
            assert forall|i: int, j: int|
                0 <= i < nodes@.len() && 0 <= j < nodes@[i].inputs@.len() implies nodes@[i].inputs@[j]
                < i by {
                if i < before.len() {
                    assert(nodes@[i] == before[i]);
                }
            }
            assert forall|i: int|
                0 <= i < nodes@.len() implies nodes@[i].inputs@.len()
                == nodes@[i].operator.view().arity() by {
                if i < before.len() {
                    assert(nodes@[i] == before[i]);
                }
            }
            assert forall|i: int|
                0 <= i < nodes@.len() implies !nodes@[i].operator.view().is_logical() by {
                if i < before.len() {
                    assert(nodes@[i] == before[i]);
                }
            }
            let top = nodes@.len() - 1;
            assert forall|j: int| 0 <= j < x.inputs@.len() implies winner_cost(
                *self,
                x.inputs@[j] as int,
                any_props(),
            ) < w.cost.0 && is_winner_tree(
                *self,
                x.inputs@[j] as int,
                any_props(),
                nodes@,
                nodes@[top].inputs@[j] as int,
            ) by {
                lemma_winner_tree_extends(
                    *self,
                    x.inputs@[j] as int,
                    any_props(),
                    before,
                    nodes@,
                    nodes@[top].inputs@[j] as int,
                );
            }
            assert(is_winner_tree(*self, g as int, props, nodes@, top));
        }
        Ok(nodes.len() - 1)
    }
}

/// `base` plus the costs of the winners for `Any` of the groups `inputs`,
/// added in order the way `Cost::add` adds.
pub open spec fn inputs_total(m: Memo, inputs: Seq<usize>, base: Cost) -> Cost
    decreases inputs.len(),
{
    if inputs.len() == 0 {
        base
    } else {
        cost_add(
            inputs_total(m, inputs.drop_last(), base),
            m.winner(inputs.last() as int, any_props())->0.cost,
        )
    }
}

/// What `x` costs with its inputs' winners.
pub open spec fn candidate_cost(m: Memo, x: int) -> Cost {
    inputs_total(m, m.exprs@[x].inputs@, operator_cost(m.exprs@[x].operator.view()))
}

/// Physical expression `x` can be offered for `props`: it delivers them,
/// each input group has a winner for `Any`, and its cost is finite and
/// above each of theirs.
pub open spec fn candidate(m: Memo, x: int, props: PhysicalPropertySet) -> bool {
    let e = m.exprs@[x];
    &&& 0 <= x < m.exprs@.len()
    &&& !e.operator.view().is_logical()
    &&& satisfies(delivered_by(e.operator.view()), props)
    &&& candidate_cost(m, x).0 < INF_COST
    &&& forall|k: int|
        0 <= k < e.inputs@.len() ==> m.winner(e.inputs@[k] as int, any_props()) is Some && m.winner(
            e.inputs@[k] as int,
            any_props(),
        )->0.cost.0 < candidate_cost(m, x).0
}

/// No candidate `x` beats the winner of its group.
pub open spec fn costed_at(m: Memo, x: int) -> bool {
    forall|p: PhysicalPropertySet|
        #[trigger] candidate(m, x, p) ==> m.winner(m.exprs@[x].group as int, p) is Some && m.winner(
            m.exprs@[x].group as int,
            p,
        )->0.cost.0 <= candidate_cost(m, x).0
}

/// Every winner of `m` is no dearer than any candidate of its group.
pub open spec fn costed(m: Memo) -> bool {
    forall|x: int| 0 <= x < m.exprs@.len() ==> #[trigger] costed_at(m, x)
}

pub open spec fn winner_value(w: Option<crate::memo::Winner>) -> int {
    match w {
        None => INF_COST + 1,
        Some(w) => w.cost.0 as int,
    }
}

pub open spec fn group_value(g: crate::memo::Group) -> int {
    winner_value(g.winner_any) + winner_value(g.winner_single)
}

/// Sum of the winners' costs, a missing winner counting above any cost;
/// costing only ever lowers it.
pub open spec fn potential(gs: Seq<crate::memo::Group>) -> int
    decreases gs.len(),
{
    if gs.len() == 0 {
        0
    } else {
        potential(gs.drop_last()) + group_value(gs.last())
    }
}

pub proof fn lemma_potential_nonneg(gs: Seq<crate::memo::Group>)
    ensures
        potential(gs) >= 0,
    decreases gs.len(),
{
    if gs.len() > 0 {
        lemma_potential_nonneg(gs.drop_last());
    }
}

pub proof fn lemma_potential_lt(a: Seq<crate::memo::Group>, b: Seq<crate::memo::Group>, g: int)
    requires
        a.len() == b.len(),
        0 <= g < a.len(),
        forall|i: int| 0 <= i < a.len() && i != g ==> group_value(a[i]) == group_value(b[i]),
        group_value(b[g]) < group_value(a[g]),
    ensures
        potential(b) < potential(a),
    decreases a.len(),
{
    if g == a.len() - 1 {
        assert(a.drop_last() =~= a.drop_last());
        lemma_potential_eq(a.drop_last(), b.drop_last());
    } else {
        lemma_potential_lt(a.drop_last(), b.drop_last(), g);
    }
}

pub proof fn lemma_potential_eq(a: Seq<crate::memo::Group>, b: Seq<crate::memo::Group>)
    requires
        a.len() == b.len(),
        forall|i: int| 0 <= i < a.len() ==> group_value(a[i]) == group_value(b[i]),
    ensures
        potential(b) == potential(a),
    decreases a.len(),
{
    if a.len() > 0 {
        lemma_potential_eq(a.drop_last(), b.drop_last());
    }
}

/// Cost of the winner of group `g` for `props`, or zero.
pub open spec fn winner_cost(m: Memo, g: int, props: PhysicalPropertySet) -> int {
    match m.winner(g, props) {
        Some(w) => w.cost.0 as int,
        None => 0,
    }
}

/// Node `i` of `nodes` roots the tree of winners from group `g` for `props`
/// down: each node holds its group's winning operator, over the trees of its
/// input groups' winners for `Any`.
pub open spec fn is_winner_tree(
    m: Memo,
    g: int,
    props: PhysicalPropertySet,
    nodes: Seq<PlanNode>,
    i: int,
) -> bool
    decreases winner_cost(m, g, props),
{
    let w = m.winner(g, props)->0;
    let x = m.exprs@[w.expr as int];
    &&& m.winner(g, props) is Some
    &&& 0 <= i < nodes.len()
    &&& 0 <= w.expr < m.exprs@.len()
    &&& nodes[i].operator.view() == x.operator.view()
    &&& nodes[i].inputs@.len() == x.inputs@.len()
    &&& forall|k: int|
        0 <= k < x.inputs@.len() ==> winner_cost(m, x.inputs@[k] as int, any_props()) < w.cost.0
            && is_winner_tree(m, x.inputs@[k] as int, any_props(), nodes, nodes[i].inputs@[k] as int)
}

/// A tree of winners stays one when nodes are appended.
pub proof fn lemma_winner_tree_extends(
    m: Memo,
    g: int,
    props: PhysicalPropertySet,
    n1: Seq<PlanNode>,
    n2: Seq<PlanNode>,
    i: int,
)
    requires
        is_winner_tree(m, g, props, n1, i),
        n1.len() <= n2.len(),
        forall|j: int| 0 <= j < n1.len() ==> n2[j] == n1[j],
    ensures
        is_winner_tree(m, g, props, n2, i),
    decreases winner_cost(m, g, props),
{
    let w = m.winner(g, props)->0;
    let x = m.exprs@[w.expr as int];
    assert(n2[i] == n1[i]);
    assert forall|k: int|
        0 <= k < x.inputs@.len() implies winner_cost(m, x.inputs@[k] as int, any_props()) < w.cost.0
            && is_winner_tree(m, x.inputs@[k] as int, any_props(), n2, n2[i].inputs@[k] as int) by {
        assert(winner_cost(m, x.inputs@[k] as int, any_props()) < w.cost.0);
        assert(is_winner_tree(m, x.inputs@[k] as int, any_props(), n1, n1[i].inputs@[k] as int));
        lemma_winner_tree_extends(m, x.inputs@[k] as int, any_props(), n1, n2, n1[i].inputs@[k] as int);
    }
}

pub fn any_props_exec() -> (r: PhysicalPropertySet)
    ensures
        r == any_props(),
{
    PhysicalPropertySet::any()
}

/// The root group has a winner for `props` that costs at most `bound`.
pub open spec fn root_within_bound(m: Memo, props: PhysicalPropertySet, bound: Cost) -> bool {
    m.winner(m.root as int, props) is Some && m.winner(m.root as int, props)->0.cost.0 <= bound.0
}

/// The operator of the root group's winner for `props`.
pub open spec fn root_winner_operator(m: Memo, props: PhysicalPropertySet) -> crate::operator::OperatorV {
    m.exprs@[m.winner(m.root as int, props)->0.expr as int].operator.view()
}

impl CascadesOptimizer {
    /// Explores the memo with the rules, costs it, and returns the cheapest
    /// plan of physical operators that delivers the required properties.
    pub fn find_best_plan(&mut self) -> (r: Result<Plan, OptimizerError>)
        requires
            old(self).wf(),
        ensures
            final(self).wf(),
            final(self).required_prop == old(self).required_prop,
            final(self).rules@ == old(self).rules@,
            final(self).cost_bound == old(self).cost_bound,
            final(self).memo.root == old(self).memo.root,
            applied_grows(old(self).memo, final(self).memo),
            explored(old(self).memo, old(self).rules@) && costed(old(self).memo) ==> final(self).memo
                == old(self).memo,
            match r {
                Ok(p) => {
                    &&& p.wf()
                    &&& p.is_physical()
                    &&& root_within_bound(final(self).memo, old(self).required_prop, old(self).cost_bound)
                    &&& is_winner_tree(
                        final(self).memo,
                        final(self).memo.root as int,
                        old(self).required_prop,
                        p.nodes@,
                        p.root as int,
                    )
                    &&& satisfies(
                        delivered_by(p.nodes@[p.root as int].operator.view()),
                        old(self).required_prop,
                    )
                },
                Err(e) => {
                    ||| (e == OptimizerError::NoWinner && !root_within_bound(
                        final(self).memo,
                        old(self).required_prop,
                        old(self).cost_bound,
                    ))
                    ||| (e == OptimizerError::InvariantViolation && (final(self).memo.exprs@.len()
                        + 2 >= MAX_EXPRS || root_within_bound(
                        final(self).memo,
                        old(self).required_prop,
                        old(self).cost_bound,
                    )))
                },
            },
            r is Ok || r == Err::<Plan, OptimizerError>(OptimizerError::NoWinner) ==> explored(
                final(self).memo,
                final(self).rules@,
            ) && costed(final(self).memo),
            r is Ok || r == Err::<Plan, OptimizerError>(OptimizerError::NoWinner) ==> forall|x: int|
                #![trigger candidate(final(self).memo, x, old(self).required_prop)]
                0 <= x < final(self).memo.exprs@.len() && final(self).memo.exprs@[x].group
                    == final(self).memo.root && candidate(final(self).memo, x, old(self).required_prop)
                    && candidate_cost(final(self).memo, x).0 <= old(self).cost_bound.0
                    ==> r is Ok,
            final(self).memo.exprs@.len() + 2 < MAX_EXPRS && !root_within_bound(
                final(self).memo,
                old(self).required_prop,
                old(self).cost_bound,
            ) ==> r == Err::<Plan, OptimizerError>(OptimizerError::NoWinner),
    {
        match self.explore() {
            Ok(()) => {},
            Err(err) => {
                return Err(err);
            },
        }
        let cost_model = self.cost_model;
        self.memo.compute_winners(&cost_model);
        proof {
            assert forall|x: int|
                #![trigger candidate(self.memo, x, self.required_prop)]
                0 <= x < self.memo.exprs@.len() && self.memo.exprs@[x].group == self.memo.root
                    && candidate(self.memo, x, self.required_prop) && candidate_cost(self.memo, x).0
                    <= self.cost_bound.0 implies root_within_bound(
                self.memo,
                self.required_prop,
                self.cost_bound,
            ) by {
                assert(costed_at(self.memo, x));
            }
        }
        let mut nodes: Vec<PlanNode> = Vec::new();
        let root = self.memo.root;
        match self.memo.winner_of(root, self.required_prop) {
            Some(w) => {
                if w.cost.0 > self.cost_bound.0 {
                    return Err(OptimizerError::NoWinner);
                }
            },
            None => {},
        }
        match self.memo.extract(root, self.required_prop, &mut nodes) {
            Ok(i) => Ok(Plan { nodes, root: i }),
            Err(e) => Err(e),
        }
    }
}

} // verus!
