//! Plan trees, stored as arenas of nodes.
//!
//! A node's inputs always have smaller indices than the node itself, so a
//! plan is a DAG; the index of a node is its id.
use vstd::prelude::*;
use crate::expr::ScalarExpr;
use crate::operator::{Filter, Join, JoinType, Limit, LogicalOperator, Operator, OperatorV, PhysicalOperator, Projection, TableScan};

verus! {

#[derive(Debug)]
pub struct PlanNode {
    pub operator: Operator,
    pub inputs: Vec<usize>,
}

#[derive(Debug)]
pub struct Plan {
    pub nodes: Vec<PlanNode>,
    pub root: usize,
}

/// Every input of node `i` is an earlier node, and the node has as many inputs
/// as its operator takes.
pub open spec fn nodes_wf(nodes: Seq<PlanNode>) -> bool {
    forall|i: int, k: int|
        0 <= i < nodes.len() && 0 <= k < nodes[i].inputs@.len() ==> nodes[i].inputs@[k] < i
}

pub open spec fn arities_wf(nodes: Seq<PlanNode>) -> bool {
    forall|i: int|
        0 <= i < nodes.len() ==> nodes[i].inputs@.len() == nodes[i].operator.view().arity()
}

/// The subtree at node `i` of `a` and the one at node `j` of `b` have the same
/// shape and equal operators, whatever their node ids.
pub open spec fn subtree_eq(a: Seq<PlanNode>, i: int, b: Seq<PlanNode>, j: int) -> bool
    decreases i,
{
    &&& 0 <= i < a.len()
    &&& 0 <= j < b.len()
    &&& a[i].operator.view() == b[j].operator.view()
    &&& a[i].inputs@.len() == b[j].inputs@.len()
    &&& forall|k: int|
        #![trigger a[i].inputs@[k]]
        0 <= k < a[i].inputs@.len() ==> 0 <= a[i].inputs@[k] < i && subtree_eq(
            a,
            a[i].inputs@[k] as int,
            b,
            b[j].inputs@[k] as int,
        )
}

impl Plan {
    pub open spec fn wf(&self) -> bool {
        &&& self.root < self.nodes@.len()
        &&& nodes_wf(self.nodes@)
        &&& arities_wf(self.nodes@)
    }

    /// Every operator of the plan is physical.
    pub open spec fn is_physical(&self) -> bool {
        forall|i: int| 0 <= i < self.nodes@.len() ==> !self.nodes@[i].operator.view().is_logical()
    }

    pub fn root(&self) -> (r: usize)
        ensures
            r == self.root,
    {
        self.root
    }

    /// Same tree, up to the numbering of nodes.
    pub fn same_as(&self, other: &Plan) -> (r: bool)
        requires
            self.wf(),
            other.wf(),
        ensures
            r == subtree_eq(self.nodes@, self.root as int, other.nodes@, other.root as int),
    {
        same_subtree(&self.nodes, self.root, &other.nodes, other.root)
    }
}

fn same_subtree(a: &Vec<PlanNode>, i: usize, b: &Vec<PlanNode>, j: usize) -> (r: bool)
    requires
        nodes_wf(a@),
        nodes_wf(b@),
        i < a@.len(),
        j < b@.len(),
    ensures
        r == subtree_eq(a@, i as int, b@, j as int),
    decreases i,
{
    if !a[i].operator.same_as(&b[j].operator) {
        return false;
    }
    if a[i].inputs.len() != b[j].inputs.len() {
        return false;
    }
    let n = a[i].inputs.len();
    let mut k: usize = 0;
    while k < n
        invariant
            nodes_wf(a@),
            nodes_wf(b@),
            i < a@.len(),
            j < b@.len(),
            n == a@[i as int].inputs@.len(),
            n == b@[j as int].inputs@.len(),
            k <= n,
            forall|m: int|
                0 <= m < k ==> subtree_eq(
                    a@,
                    a@[i as int].inputs@[m] as int,
                    b@,
                    b@[j as int].inputs@[m] as int,
                ),
        decreases n - k,
    {
        let ci = a[i].inputs[k];
        let cj = b[j].inputs[k];
        assert(ci < i);
        assert(cj < j);
        if !same_subtree(a, ci, b, cj) {
            return false;
        }
        k = k + 1;
    }
    true
}

/// Builds a plan bottom-up. Each call adds one node over the current one and
/// makes it current.
pub struct PlanBuilder {
    pub nodes: Vec<PlanNode>,
    pub current: usize,
}

impl PlanBuilder {
    pub open spec fn wf(&self) -> bool {
        &&& nodes_wf(self.nodes@)
        &&& arities_wf(self.nodes@)
        &&& self.nodes@.len() > 0 ==> self.current < self.nodes@.len()
    }

    pub fn new() -> (r: PlanBuilder)
        ensures
            r.wf(),
            r.nodes@.len() == 0,
    {
        PlanBuilder { nodes: Vec::new(), current: 0 }
    }

    /// Index of the current node; use it as the other input of a join.
    pub fn current(&self) -> (r: usize)
        ensures
            r == self.current,
    {
        self.current
    }

    fn push(self, operator: Operator, inputs: Vec<usize>) -> (r: PlanBuilder)
        requires
            self.wf(),
            self.nodes@.len() < usize::MAX,
            inputs@.len() == operator.view().arity(),
            forall|k: int| 0 <= k < inputs@.len() ==> inputs@[k] < self.nodes@.len(),
        ensures
            r.wf(),
            r.nodes@ == self.nodes@.push(PlanNode { operator, inputs }),
            r.current == self.nodes@.len(),
    {
        let mut nodes = self.nodes;
        let idx = nodes.len();
        nodes.push(PlanNode { operator, inputs });
        PlanBuilder { nodes, current: idx }
    }

    /// A logical scan of `table`; it has no inputs.
    pub fn scan(self, limit: Option<usize>, table: &str) -> (r: PlanBuilder)
        requires
            self.wf(),
            self.nodes@.len() < usize::MAX,
        ensures
            r.wf(),
            r.nodes@.len() == self.nodes@.len() + 1,
            r.current == self.nodes@.len(),
            r.nodes@.last().operator.view() == (OperatorV::Scan { table: table@, limit }),
    {
        let op = Operator::Logical(
            LogicalOperator::LogicalScan(TableScan { table_name: table.to_string(), limit }),
        );
        self.push(op, Vec::new())
    }

    /// A limit of `n` rows over the current node.
    pub fn limit(self, n: usize) -> (r: PlanBuilder)
        requires
            self.wf(),
            0 < self.nodes@.len() < usize::MAX,
        ensures
            r.wf(),
            r.nodes@.len() == self.nodes@.len() + 1,
            r.current == self.nodes@.len(),
            r.nodes@.last().operator.view() == (OperatorV::Limit { limit: n }),
            r.nodes@.last().inputs@ == seq![self.current],
    {
        let c = self.current;
        let op = Operator::Logical(LogicalOperator::LogicalLimit(Limit { limit: n }));
        self.push(op, vec![c])
    }

    /// A projection over the current node.
    pub fn projection(self, exprs: Vec<ScalarExpr>) -> (r: PlanBuilder)
        requires
            self.wf(),
            0 < self.nodes@.len() < usize::MAX,
        ensures
            r.wf(),
            r.nodes@.len() == self.nodes@.len() + 1,
            r.current == self.nodes@.len(),
            r.nodes@.last().operator == Operator::Logical(
                LogicalOperator::LogicalProjection(Projection { exprs }),
            ),
            r.nodes@.last().inputs@ == seq![self.current],
    {
        let c = self.current;
        let op = Operator::Logical(LogicalOperator::LogicalProjection(Projection { exprs }));
        self.push(op, vec![c])
    }

    /// A filter over the current node.
    pub fn filter(self, predicate: ScalarExpr) -> (r: PlanBuilder)
        requires
            self.wf(),
            0 < self.nodes@.len() < usize::MAX,
        ensures
            r.wf(),
            r.nodes@.len() == self.nodes@.len() + 1,
            r.current == self.nodes@.len(),
            r.nodes@.last().operator == Operator::Logical(
                LogicalOperator::LogicalFilter(Filter { predicate }),
            ),
            r.nodes@.last().inputs@ == seq![self.current],
    {
        let c = self.current;
        let op = Operator::Logical(LogicalOperator::LogicalFilter(Filter { predicate }));
        self.push(op, vec![c])
    }

    /// A logical join with the current node on the left and node `right`
    /// on the right.
    pub fn join(self, join_type: JoinType, condition: ScalarExpr, right: usize) -> (r: PlanBuilder)
        requires
            self.wf(),
            0 < self.nodes@.len() < usize::MAX,
            right < self.nodes@.len(),
        ensures
            r.wf(),
            r.nodes@.len() == self.nodes@.len() + 1,
            r.current == self.nodes@.len(),
            r.nodes@.last().operator == Operator::Logical(
                LogicalOperator::LogicalJoin(Join { join_type, condition }),
            ),
            r.nodes@.last().inputs@ == seq![self.current, right],
    {
        let c = self.current;
        let op = Operator::Logical(LogicalOperator::LogicalJoin(Join { join_type, condition }));
        self.push(op, vec![c, right])
    }

    /// A physical table scan of `table`.
    pub fn table_scan(self, limit: Option<usize>, table: &str) -> (r: PlanBuilder)
        requires
            self.wf(),
            self.nodes@.len() < usize::MAX,
        ensures
            r.wf(),
            r.nodes@.len() == self.nodes@.len() + 1,
            r.current == self.nodes@.len(),
            r.nodes@.last().operator.view() == (OperatorV::TableScan { table: table@, limit }),
    {
        let op = Operator::Physical(
            PhysicalOperator::PhysicalTableScan(TableScan { table_name: table.to_string(), limit }),
        );
        self.push(op, Vec::new())
    }

    /// A hash join with the current node on the left and node `right` on the
    /// right.
    pub fn hash_join(self, join_type: JoinType, condition: ScalarExpr, right: usize) -> (r: PlanBuilder)
        requires
            self.wf(),
            0 < self.nodes@.len() < usize::MAX,
            right < self.nodes@.len(),
        ensures
            r.wf(),
            r.nodes@.len() == self.nodes@.len() + 1,
            r.current == self.nodes@.len(),
            r.nodes@.last().operator == Operator::Physical(
                PhysicalOperator::PhysicalHashJoin(Join { join_type, condition }),
            ),
            r.nodes@.last().inputs@ == seq![self.current, right],
    {
        let c = self.current;
        let op = Operator::Physical(
            PhysicalOperator::PhysicalHashJoin(Join { join_type, condition }),
        );
        self.push(op, vec![c, right])
    }

    /// The plan rooted at the current node.
    pub fn build(self) -> (r: Plan)
        requires
            self.wf(),
            self.nodes@.len() > 0,
        ensures
            r.wf(),
            r.nodes@ == self.nodes@,
            r.root == self.current,
    {
        Plan { nodes: self.nodes, root: self.current }
    }
}

} // verus!
