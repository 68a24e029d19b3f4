//! The memo: groups of logically equivalent expressions.
use vstd::prelude::*;
use crate::cost::{Cost, INF_COST};
use crate::error::OptimizerError;
use crate::operator::{Operator, OperatorV};
use crate::plan::Plan;
use crate::properties::{Distribution, PhysicalPropertySet, delivered_by, satisfies};
use crate::rules::RuleId;

verus! {

/// Largest number of group expressions a memo may hold: a quarter of the
/// address space, which no real memo reaches.
pub const MAX_EXPRS: usize = usize::MAX / 4;

/// One operator whose inputs are groups.
#[derive(Debug)]
pub struct GroupExpr {
    pub operator: Operator,
    pub inputs: Vec<usize>,
    pub group: usize,
    /// Rules already fired on this expression.
    pub applied_rules: Vec<RuleId>,
}

impl GroupExpr {
    /// What identifies an expression in the memo.
    pub open spec fn key(&self) -> (OperatorV, Seq<usize>) {
        (self.operator.view(), self.inputs@)
    }

    pub open spec fn has_applied(&self, id: RuleId) -> bool {
        self.applied_rules@.contains(id)
    }
}

/// The cheapest known expression delivering some properties.
#[derive(Clone, Copy, Debug, PartialEq, Eq, Structural)]
pub struct Winner {
    pub expr: usize,
    pub cost: Cost,
}

#[derive(Debug)]
pub struct Group {
    pub exprs: Vec<usize>,
    /// Winner for `Distribution::Any`.
    pub winner_any: Option<Winner>,
    /// Winner for `Distribution::SinglePartition`.
    pub winner_single: Option<Winner>,
}

impl Group {
    pub open spec fn winner(&self, props: PhysicalPropertySet) -> Option<Winner> {
        match props.distribution {
            Distribution::Any => self.winner_any,
            Distribution::SinglePartition => self.winner_single,
        }
    }
}

#[derive(Debug)]
pub struct Memo {
    pub groups: Vec<Group>,
    pub exprs: Vec<GroupExpr>,
    pub root: usize,
}

pub open spec fn any_props() -> PhysicalPropertySet {
    PhysicalPropertySet { distribution: Distribution::Any }
}

impl Memo {
    pub open spec fn winner(&self, g: int, props: PhysicalPropertySet) -> Option<Winner> {
        self.groups@[g].winner(props)
    }

    pub open spec fn exprs_wf(&self) -> bool {
        forall|e: int|
            #![trigger self.exprs@[e]]
            0 <= e < self.exprs@.len() ==> {
                &&& self.exprs@[e].group < self.groups@.len()
                &&& self.exprs@[e].inputs@.len() == self.exprs@[e].operator.view().arity()
                &&& forall|k: int|
                    0 <= k < self.exprs@[e].inputs@.len() ==> self.exprs@[e].inputs@[k]
                        < self.groups@.len()
            }
    }

    pub open spec fn members_wf(&self) -> bool {
        forall|g: int, k: int|
            0 <= g < self.groups@.len() && 0 <= k < self.groups@[g].exprs@.len() ==> {
                &&& self.groups@[g].exprs@[k] < self.exprs@.len()
                &&& self.exprs@[self.groups@[g].exprs@[k] as int].group == g
            }
    }

    /// No two expressions have the same operator and inputs.
    pub open spec fn interned(&self) -> bool {
        forall|i: int, j: int|
            0 <= i < self.exprs@.len() && 0 <= j < self.exprs@.len() && i != j
                ==> self.exprs@[i].key() != self.exprs@[j].key()
    }

    /// Each winner is a physical member of its group that delivers the
    /// properties, and every input group of it has a winner for `Any`.
    pub open spec fn winner_ok(&self, g: int, props: PhysicalPropertySet) -> bool {
        match self.winner(g, props) {
            None => true,
            Some(w) => {
                &&& w.expr < self.exprs@.len()
                &&& self.exprs@[w.expr as int].group == g
                &&& !self.exprs@[w.expr as int].operator.view().is_logical()
                &&& satisfies(delivered_by(self.exprs@[w.expr as int].operator.view()), props)
                &&& w.cost.0 < INF_COST
                &&& forall|k: int|
                    0 <= k < self.exprs@[w.expr as int].inputs@.len() ==> self.winner(
                        self.exprs@[w.expr as int].inputs@[k] as int,
                        any_props(),
                    ) is Some && self.winner(
                        self.exprs@[w.expr as int].inputs@[k] as int,
                        any_props(),
                    )->0.cost.0 < w.cost.0
            },
        }
    }

    pub open spec fn winners_wf(&self) -> bool {
        forall|g: int, props: PhysicalPropertySet|
            0 <= g < self.groups@.len() ==> #[trigger] self.winner_ok(g, props)
    }

    /// Each expression records each rule that fired on it once.
    pub open spec fn applied_once(&self) -> bool {
        forall|e: int| 0 <= e < self.exprs@.len() ==> #[trigger] self.exprs@[e].applied_rules@.no_duplicates()
    }

    pub open spec fn wf(&self) -> bool {
        &&& self.applied_once()
        &&& self.exprs@.len() <= MAX_EXPRS
        &&& self.groups@.len() <= self.exprs@.len()
        &&& self.exprs_wf()
        &&& self.members_wf()
        &&& self.interned()
        &&& self.winners_wf()
    }

    pub fn new() -> (r: Memo)
        ensures
            r.wf(),
            r.groups@.len() == 0,
            r.exprs@.len() == 0,
    {
        Memo { groups: Vec::new(), exprs: Vec::new(), root: 0 }
    }

    pub fn root_group_id(&self) -> (r: usize)
        ensures
            r == self.root,
    {
        self.root
    }

    /// The expression with operator `op` and inputs `inputs`, if any.
    pub fn find_expr(&self, op: &Operator, inputs: &Vec<usize>) -> (r: Option<usize>)
        ensures
            match r {
                Some(i) => i < self.exprs@.len() && self.exprs@[i as int].key() == (
                    op.view(),
                    inputs@,
                ),
                None => forall|i: int|
                    0 <= i < self.exprs@.len() ==> self.exprs@[i].key() != (op.view(), inputs@),
            },
    {
        let mut i: usize = 0;
        while i < self.exprs.len()
            invariant
                i <= self.exprs@.len(),
                forall|j: int| 0 <= j < i ==> self.exprs@[j].key() != (op.view(), inputs@),
            decreases self.exprs@.len() - i,
        {
            if self.exprs[i].operator.same_as(op) && self.exprs[i].inputs == *inputs {
                return Some(i);
            }
            i = i + 1;
        }
        None
    }
}

} // verus!

verus! {

impl Memo {
    /// The memo with group `g` replaced by `group`.
    fn replace_group(&mut self, g: usize, group: Group) -> (old_group: Group)
        requires
            g < old(self).groups@.len(),
        ensures
            final(self).groups@ == old(self).groups@.update(g as int, group),
            final(self).exprs@ == old(self).exprs@,
            final(self).root == old(self).root,
            old_group == old(self).groups@[g as int],
    {
        let old_group = self.groups.remove(g);
        self.groups.insert(g, group);
        proof {
            assert(self.groups@ =~= old(self).groups@.update(g as int, group));
        }
        old_group
    }

    /// The memo with expression `e` replaced by `expr`.
    fn replace_expr(&mut self, e: usize, expr: GroupExpr) -> (old_expr: GroupExpr)
        requires
            e < old(self).exprs@.len(),
        ensures
            final(self).exprs@ == old(self).exprs@.update(e as int, expr),
            final(self).groups@ == old(self).groups@,
            final(self).root == old(self).root,
            old_expr == old(self).exprs@[e as int],
    {
        let old_expr = self.exprs.remove(e);
        self.exprs.insert(e, expr);
        proof {
            assert(self.exprs@ =~= old(self).exprs@.update(e as int, expr));
        }
        old_expr
    }

    /// Inserts `op` over `inputs`. An expression already present is kept
    /// where it is and returned, even when `target` names another group:
    /// groups are never merged; a new one joins group `target`, or a new
    /// group where `target` is `None`. Returns the expression, its group, and
    /// whether it is new.
    pub fn insert_expr(&mut self, op: Operator, inputs: Vec<usize>, target: Option<usize>) -> (r: (
        usize,
        usize,
        bool,
    ))
        requires
            old(self).wf(),
            old(self).exprs@.len() < MAX_EXPRS,
            inputs@.len() == op.view().arity(),
            forall|k: int| 0 <= k < inputs@.len() ==> inputs@[k] < old(self).groups@.len(),
            target is Some ==> target->0 < old(self).groups@.len(),
        ensures
            final(self).wf(),
            final(self).root == old(self).root,
            r.0 < final(self).exprs@.len(),
            final(self).exprs@[r.0 as int].key() == (op.view(), inputs@),
            final(self).exprs@[r.0 as int].group == r.1,
            r.1 < final(self).groups@.len(),
            r.2 == (forall|i: int|
                0 <= i < old(self).exprs@.len() ==> old(self).exprs@[i].key() != (
                    op.view(),
                    inputs@,
                )),
            !r.2 ==> *final(self) == *old(self),
            r.2 ==> {
                &&& r.0 == old(self).exprs@.len()
                &&& final(self).exprs@.len() == old(self).exprs@.len() + 1
                &&& final(self).exprs@[r.0 as int].applied_rules@.len() == 0
                &&& match target {
                    Some(g) => r.1 == g && final(self).groups@.len() == old(self).groups@.len(),
                    None => r.1 == old(self).groups@.len() && final(self).groups@.len()
                        == old(self).groups@.len() + 1,
                }
            },
            forall|i: int|
                0 <= i < old(self).exprs@.len() ==> final(self).exprs@[i] == old(self).exprs@[i],
            forall|g: int, p: PhysicalPropertySet|
                0 <= g < old(self).groups@.len() ==> final(self).winner(g, p) == old(
                    self,
                ).winner(g, p),
            final(self).groups@.len() >= old(self).groups@.len(),
            forall|g: int, p: PhysicalPropertySet|
                old(self).groups@.len() <= g < final(self).groups@.len() ==> final(self).winner(
                    g,
                    p,
                ) is None,
            r.2 && target is None ==> final(self).groups@[r.1 as int].exprs@ == seq![r.0],
            forall|g: int|
                0 <= g < old(self).groups@.len() && (!r.2 || target != Some(g as usize))
                    ==> final(self).groups@[g].exprs@ == old(self).groups@[g].exprs@,
    {
        match self.find_expr(&op, &inputs) {
            Some(i) => {
                return (i, self.exprs[i].group, false);
            },
            None => {},
        }
        let e = self.exprs.len();
        let g = match target {
            Some(g) => g,
            None => {
                self.groups.push(Group { exprs: Vec::new(), winner_any: None, winner_single: None });
                self.groups.len() - 1
            },
        };
        let ghost mid = *self;
        self.exprs.push(GroupExpr { operator: op, inputs, group: g, applied_rules: Vec::new() });
        let old_group = self.replace_group(
            g,
            Group { exprs: Vec::new(), winner_any: None, winner_single: None },
        );
        let mut members = old_group.exprs;
        members.push(e);
        self.replace_group(
            g,
            Group {
                exprs: members,
                winner_any: old_group.winner_any,
                winner_single: old_group.winner_single,
            },
        );
        proof {
            assert forall|x: int| 0 <= x < old(self).groups@.len() implies self.groups@[x].winner_any
                == old(self).groups@[x].winner_any && self.groups@[x].winner_single == old(
                self,
            ).groups@[x].winner_single by {}
            assert forall|x: int, p: PhysicalPropertySet|
                0 <= x < self.groups@.len() implies #[trigger] self.winner_ok(x, p) by {
                if x < old(self).groups@.len() {
                    assert(old(self).winner_ok(x, p));
                    if let Some(w) = old(self).winner(x, p) {
                        let ge = old(self).exprs@[w.expr as int];
                        assert(self.exprs@[w.expr as int] == ge);
                        assert forall|k: int| 0 <= k < ge.inputs@.len() implies self.winner(
                            ge.inputs@[k] as int,
                            any_props(),
                        ) is Some by {
                            assert(old(self).exprs_wf());
                            assert(old(self).exprs@[w.expr as int] == ge);
                        }
                    }
                }
            }
            assert forall|x: int, k: int|
                0 <= x < self.groups@.len() && 0 <= k < self.groups@[x].exprs@.len() implies {
                &&& self.groups@[x].exprs@[k] < self.exprs@.len()
                &&& self.exprs@[self.groups@[x].exprs@[k] as int].group == x
            } by {
                if x == g && k == self.groups@[x].exprs@.len() - 1 {
                } else {
                    assert(mid.members_wf());
                    assert(mid.groups@[x].exprs@[k] == self.groups@[x].exprs@[k]);
                }
            }
            assert(self.exprs_wf());
        }
        (e, g, true)
    }
}

} // verus!

verus! {

impl Memo {
    /// Whether rule `id` has fired on expression `e`.
    pub fn has_applied(&self, e: usize, id: RuleId) -> (r: bool)
        requires
            e < self.exprs@.len(),
        ensures
            r == self.exprs@[e as int].has_applied(id),
    {
        let rules = &self.exprs[e].applied_rules;
        let mut i: usize = 0;
        while i < rules.len()
            invariant
                e < self.exprs@.len(),
                rules@ == self.exprs@[e as int].applied_rules@,
                i <= rules@.len(),
                forall|j: int| 0 <= j < i ==> rules@[j] != id,
            decreases rules@.len() - i,
        {
            if rules[i] == id {
                assert(rules@[i as int] == id);
                return true;
            }
            i = i + 1;
        }
        false
    }

    /// Records that rule `id` has fired on expression `e`.
    pub fn mark_applied(&mut self, e: usize, id: RuleId)
        requires
            old(self).wf(),
            e < old(self).exprs@.len(),
        ensures
            final(self).wf(),
            final(self).root == old(self).root,
            final(self).groups@ == old(self).groups@,
            final(self).exprs@.len() == old(self).exprs@.len(),
            final(self).exprs@[e as int].has_applied(id),
            forall|i: int|
                0 <= i < old(self).exprs@.len() ==> final(self).exprs@[i].key() == old(
                    self,
                ).exprs@[i].key() && final(self).exprs@[i].group == old(self).exprs@[i].group,
            forall|i: int, x: RuleId|
                0 <= i < old(self).exprs@.len() && #[trigger] old(self).exprs@[i].has_applied(x)
                    ==> final(self).exprs@[i].has_applied(x),
            old(self).exprs@[e as int].has_applied(id) ==> *final(self) == *old(self),
    {
        if self.has_applied(e, id) {
            return;
        }
        let placeholder = GroupExpr {
            operator: Operator::Logical(
                crate::operator::LogicalOperator::LogicalLimit(crate::operator::Limit { limit: 0 }),
            ),
            inputs: Vec::new(),
            group: 0,
            applied_rules: Vec::new(),
        };
        let ghost mid = *self;
        let ge = self.replace_expr(e, placeholder);
        let mut rules = ge.applied_rules;
        let ghost before = rules@;
        rules.push(id);
        proof {
            assert(rules@[rules@.len() - 1] == id);
            assert forall|x: RuleId| before.contains(x) implies rules@.contains(x) by {
                let j = choose|j: int| 0 <= j < before.len() && before[j] == x;
                assert(rules@[j] == x);
            }
        }
        self.replace_expr(
            e,
            GroupExpr { operator: ge.operator, inputs: ge.inputs, group: ge.group, applied_rules: rules },
        );
        proof {
            assert(self.exprs@[e as int].key() == mid.exprs@[e as int].key());
            assert(mid.applied_once());
            assert(before.no_duplicates());
            assert(!before.contains(id));
            assert(rules@ == before.push(id));
            assert(rules@.no_duplicates()) by {
                assert forall|a: int, b: int| 0 <= a < b < rules@.len() implies rules@[a] != rules@[b] by {
                    if b == rules@.len() - 1 {
                        assert(before[a] == rules@[a]);
                    }
                }
            }
            assert forall|x: int| 0 <= x < self.exprs@.len() implies #[trigger] self.exprs@[x].applied_rules@.no_duplicates() by {
                if x != e {
                    assert(self.exprs@[x] == mid.exprs@[x]);
                }
            }
            assert forall|x: int, p: PhysicalPropertySet|
                0 <= x < self.groups@.len() implies #[trigger] self.winner_ok(x, p) by {
                assert(mid.winner_ok(x, p));
            }
            assert forall|i: int, j: int|
                0 <= i < self.exprs@.len() && 0 <= j < self.exprs@.len() && i != j
                implies self.exprs@[i].key() != self.exprs@[j].key() by {
                assert(mid.exprs@[i].key() != mid.exprs@[j].key());
            }
            assert forall|g: int, k: int|
                0 <= g < self.groups@.len() && 0 <= k < self.groups@[g].exprs@.len() implies {
                &&& self.groups@[g].exprs@[k] < self.exprs@.len()
                &&& self.exprs@[self.groups@[g].exprs@[k] as int].group == g
            } by {
                assert(mid.members_wf());
            }
        }
    }

    /// Ingests a plan bottom-up, one expression per distinct subtree; the
    /// root group is the one of the plan's root.
    pub fn from_plan(plan: &Plan) -> (r: Result<Memo, OptimizerError>)
        requires
            plan.wf(),
        ensures
            match r {
                Ok(m) => m.wf() && m.root < m.groups@.len() && exists|map: Seq<usize>|
                    ingested(m, *plan, map),
                Err(e) => e == OptimizerError::InvariantViolation && plan.nodes@.len()
                    >= MAX_EXPRS,
            },
    {
        if plan.nodes.len() >= MAX_EXPRS {
            return Err(OptimizerError::InvariantViolation);
        }
        let mut memo = Memo::new();
        let mut group_of: Vec<usize> = Vec::new();
        let mut i: usize = 0;
        while i < plan.nodes.len()
            invariant
                plan.wf(),
                plan.nodes@.len() < MAX_EXPRS,
                memo.wf(),
                i <= plan.nodes@.len(),
                group_of@.len() == i,
                memo.exprs@.len() <= i,
                forall|j: int| 0 <= j < i ==> group_of@[j] < memo.groups@.len(),
                forall|g: int, p: PhysicalPropertySet|
                    0 <= g < memo.groups@.len() ==> memo.winner(g, p) is None,
                forall|e: int| 0 <= e < memo.exprs@.len() ==> memo.exprs@[e].applied_rules@.len() == 0,
                forall|j: int| 0 <= j < i ==> #[trigger] node_ingested(memo, *plan, group_of@, j),
                ingested_shape(memo, group_of@),
            decreases plan.nodes@.len() - i,
        {
            let node = &plan.nodes[i];
            let mut inputs: Vec<usize> = Vec::new();
            let mut k: usize = 0;
            while k < node.inputs.len()
                invariant
                    plan.wf(),
                    i < plan.nodes@.len(),
                    *node == plan.nodes@[i as int],
                    group_of@.len() == i,
                    forall|j: int| 0 <= j < i ==> group_of@[j] < memo.groups@.len(),
                    k <= node.inputs@.len(),
                    inputs@.len() == k,
                    forall|j: int|
                        0 <= j < k ==> inputs@[j] == group_of@[node.inputs@[j] as int]
                            && inputs@[j] < memo.groups@.len(),
                    ingested_shape(memo, group_of@),
                decreases node.inputs@.len() - k,
            {
                let c = node.inputs[k];
                assert(c < i);
                inputs.push(group_of[c]);
                k = k + 1;
            }
            let op = node.operator.deep_clone();
            let ghost prev = memo;
            let ghost prev_group_of = group_of@;
            proof {
                assert(inputs@ =~= node.inputs@.map_values(|c: usize| group_of@[c as int]));
            }
            let (x, g, fresh) = memo.insert_expr(op, inputs, None);
            group_of.push(g);
            proof {
                assert forall|gg: int|
                    0 <= gg < memo.groups@.len() implies #[trigger] names_group(group_of@, gg) by {
                    if gg < prev.groups@.len() {
                        assert(ingested_shape(prev, prev_group_of));
                        assert(names_group(prev_group_of, gg));
                        let j = choose|j: int| 0 <= j < prev_group_of.len() && prev_group_of[j] == gg;
                        assert(group_of@ == prev_group_of.push(g));
                        assert(group_of@[j] == prev_group_of[j]);
                        assert(group_of@[j] == gg);
                    } else {
                        assert(group_of@[i as int] == gg);
                    }
                }
                assert forall|gg: int| 0 <= gg < memo.groups@.len() implies #[trigger] memo.groups@[gg].exprs@.len() == 1 by {
                    if gg < prev.groups@.len() {
                        assert(memo.groups@[gg].exprs@ == prev.groups@[gg].exprs@);
                    }
                }
                assert forall|e: int, k: int|
                    0 <= e < memo.exprs@.len() && 0 <= k < memo.exprs@[e].inputs@.len() implies memo.exprs@[e].inputs@[k]
                        < memo.exprs@[e].group by {
                    if e < prev.exprs@.len() {
                        assert(memo.exprs@[e] == prev.exprs@[e]);
                    } else {
                        assert(e == x);
                    }
                }
            }
            proof {
                assert forall|j: int| 0 <= j < i + 1 implies #[trigger] node_ingested(
                    memo,
                    *plan,
                    group_of@,
                    j,
                ) by {
                    let ins = plan.nodes@[j].inputs@;
                    assert(ins.map_values(|c: usize| group_of@[c as int]) =~= ins.map_values(
                        |c: usize| prev_group_of[c as int],
                    )) by {
                        assert forall|k: int| 0 <= k < ins.len() implies ins[k] < j by {}
                    }
                    if j < i {
                        assert(node_ingested(prev, *plan, prev_group_of, j));
                        let e = choose|e: int|
                            0 <= e < prev.exprs@.len() && prev.exprs@[e].group == prev_group_of[j]
                                && prev.exprs@[e].key() == (
                                plan.nodes@[j].operator.view(),
                                ins.map_values(|c: usize| prev_group_of[c as int]),
                            );
                        assert(memo.exprs@[e] == prev.exprs@[e]);
                    } else {
                        assert(memo.exprs@[x as int].group == group_of@[j]);
                    }
                }
            }
            i = i + 1;
        }
        let root = group_of[plan.root];
        let ghost before = memo;
        memo.root = root;
        proof {
            assert(memo.winners_wf()) by {
                assert forall|g: int, p: PhysicalPropertySet|
                    0 <= g < memo.groups@.len() implies #[trigger] memo.winner_ok(g, p) by {
                    assert(before.winner_ok(g, p));
                }
            }
            assert forall|j: int| 0 <= j < plan.nodes@.len() implies #[trigger] node_ingested(
                memo,
                *plan,
                group_of@,
                j,
            ) by {
                assert(node_ingested(before, *plan, group_of@, j));
            }
            assert forall|g: int, p: PhysicalPropertySet|
                0 <= g < memo.groups@.len() implies memo.winner(g, p) is None by {
                assert(before.winner(g, p) is None);
            }
            assert forall|gg: int| 0 <= gg < memo.groups@.len() implies #[trigger] names_group(group_of@, gg) by {
                assert(ingested_shape(before, group_of@));
            }
            assert forall|gg: int| 0 <= gg < memo.groups@.len() implies #[trigger] memo.groups@[gg].exprs@.len() == 1 by {
                assert(before.groups@[gg] == memo.groups@[gg]);
            }
            assert forall|e: int, k: int|
                0 <= e < memo.exprs@.len() && 0 <= k < memo.exprs@[e].inputs@.len() implies memo.exprs@[e].inputs@[k]
                    < memo.exprs@[e].group by {
                assert(before.exprs@[e] == memo.exprs@[e]);
            }
            assert(ingested_shape(memo, group_of@));
            assert(ingested(memo, *plan, group_of@));
        }
        Ok(memo)
    }

    /// The winner of group `g` for `props`.
    pub fn winner_of(&self, g: usize, props: PhysicalPropertySet) -> (r: Option<Winner>)
        requires
            g < self.groups@.len(),
        ensures
            r == self.winner(g as int, props),
    {
        match props.distribution {
            Distribution::Any => self.groups[g].winner_any,
            Distribution::SinglePartition => self.groups[g].winner_single,
        }
    }
}

} // verus!

verus! {

/// Node `j` of `plan` is an expression of group `map[j]` of `m`, with the
/// node's operator over the groups of the node's inputs.
pub open spec fn node_ingested(m: Memo, plan: Plan, map: Seq<usize>, j: int) -> bool {
    exists|e: int|
        0 <= e < m.exprs@.len() && m.exprs@[e].group == map[j] && m.exprs@[e].key() == (
            plan.nodes@[j].operator.view(),
            plan.nodes@[j].inputs@.map_values(|c: usize| map[c as int]),
        )
}

/// `m` is `plan` just ingested, `map` giving the group of each node: every
/// node is there over its inputs' groups, the root group is the root's, no
/// group has a winner and no rule has fired.
pub open spec fn ingested(m: Memo, plan: Plan, map: Seq<usize>) -> bool {
    &&& map.len() == plan.nodes@.len()
    &&& forall|j: int|
        0 <= j < plan.nodes@.len() ==> map[j] < m.groups@.len() && #[trigger] node_ingested(
            m,
            plan,
            map,
            j,
        )
    &&& m.root == map[plan.root as int]
    &&& m.exprs@.len() <= plan.nodes@.len()
    &&& forall|g: int, p: PhysicalPropertySet| 0 <= g < m.groups@.len() ==> m.winner(g, p) is None
    &&& forall|e: int| 0 <= e < m.exprs@.len() ==> m.exprs@[e].applied_rules@.len() == 0
    &&& ingested_shape(m, map)
}

/// Some node is mapped to group `g`.
pub open spec fn names_group(map: Seq<usize>, g: int) -> bool {
    exists|j: int| 0 <= j < map.len() && map[j] == g
}

/// Each group of `m` holds one expression and is the group of some node;
/// each expression's inputs are groups numbered below its own, so the group
/// graph has no cycle.
pub open spec fn ingested_shape(m: Memo, map: Seq<usize>) -> bool {
    &&& m.groups@.len() == m.exprs@.len()
    &&& forall|g: int| 0 <= g < m.groups@.len() ==> #[trigger] m.groups@[g].exprs@.len() == 1
    &&& forall|g: int| 0 <= g < m.groups@.len() ==> #[trigger] names_group(map, g)
    &&& forall|e: int, k: int|
        0 <= e < m.exprs@.len() && 0 <= k < m.exprs@[e].inputs@.len() ==> m.exprs@[e].inputs@[k]
            < m.exprs@[e].group
}

/// The winner after offering `candidate`: it replaces the old one only when
/// strictly cheaper.
pub open spec fn offered(old_winner: Option<Winner>, candidate: Winner) -> Option<Winner> {
    match old_winner {
        None => Some(candidate),
        Some(w) => if candidate.cost.0 < w.cost.0 {
            Some(candidate)
        } else {
            Some(w)
        },
    }
}

impl Memo {
    /// Offers expression `e` at `cost` as winner of group `g` for `props`.
    pub fn update_winner(&mut self, g: usize, props: PhysicalPropertySet, e: usize, cost: Cost)
        requires
            old(self).wf(),
            g < old(self).groups@.len(),
            e < old(self).exprs@.len(),
            old(self).exprs@[e as int].group == g,
            !old(self).exprs@[e as int].operator.view().is_logical(),
            satisfies(delivered_by(old(self).exprs@[e as int].operator.view()), props),
            cost.0 < INF_COST,
            forall|k: int|
                0 <= k < old(self).exprs@[e as int].inputs@.len() ==> old(self).winner(
                    old(self).exprs@[e as int].inputs@[k] as int,
                    any_props(),
                ) is Some && old(self).winner(
                    old(self).exprs@[e as int].inputs@[k] as int,
                    any_props(),
                )->0.cost.0 < cost.0,
        ensures
            final(self).wf(),
            final(self).root == old(self).root,
            final(self).exprs@ == old(self).exprs@,
            final(self).groups@.len() == old(self).groups@.len(),
            final(self).winner(g as int, props) == offered(
                old(self).winner(g as int, props),
                Winner { expr: e, cost },
            ),
            forall|x: int, p: PhysicalPropertySet|
                0 <= x < old(self).groups@.len() && (x != g || p != props) ==> final(self).winner(
                    x,
                    p,
                ) == old(self).winner(x, p),
    {
        let cur = self.winner_of(g, props);
        let better = match cur {
            None => true,
            Some(w) => cost.0 < w.cost.0,
        };
        if !better {
            return;
        }
        let ghost mid = *self;
        let candidate = Winner { expr: e, cost };
        let old_group = self.replace_group(
            g,
            Group { exprs: Vec::new(), winner_any: None, winner_single: None },
        );
        let new_group = match props.distribution {
            Distribution::Any => Group {
                exprs: old_group.exprs,
                winner_any: Some(candidate),
                winner_single: old_group.winner_single,
            },
            Distribution::SinglePartition => Group {
                exprs: old_group.exprs,
                winner_any: old_group.winner_any,
                winner_single: Some(candidate),
            },
        };
        self.replace_group(g, new_group);
        proof {
            assert forall|x: int, p: PhysicalPropertySet|
                0 <= x < self.groups@.len() && (x != g || p != props) implies self.winner(x, p)
                == mid.winner(x, p) by {
                if x == g {
                    assert(p.distribution != props.distribution);
                }
            }
            assert forall|x: int, p: PhysicalPropertySet|
                0 <= x < self.groups@.len() implies #[trigger] self.winner_ok(x, p) by {
                assert(mid.winner_ok(x, p));
                if let Some(w) = self.winner(x, p) {
                    let ge = self.exprs@[w.expr as int];
                    assert forall|k: int| 0 <= k < ge.inputs@.len() implies self.winner(
                        ge.inputs@[k] as int,
                        any_props(),
                    ) is Some by {
                        assert(mid.exprs_wf());
                        let c = ge.inputs@[k] as int;
                        assert(mid.winner(c, any_props()) is Some);
                    }
                }
            }
            assert(self.members_wf()) by {
                assert forall|x: int, k: int|
                    0 <= x < self.groups@.len() && 0 <= k < self.groups@[x].exprs@.len() implies {
                    &&& self.groups@[x].exprs@[k] < self.exprs@.len()
                    &&& self.exprs@[self.groups@[x].exprs@[k] as int].group == x
                } by {
                    assert(mid.members_wf());
                    assert(self.groups@[x].exprs@ == mid.groups@[x].exprs@);
                }
            }
        }
    }
}

} // verus!
