//! Costs and the cost model.
use vstd::prelude::*;
use crate::operator::{Operator, OperatorV, PhysicalOperator};

verus! {

/// A non-negative cost; `inf()` is the largest and absorbs additions.
#[derive(Clone, Copy, Debug, PartialEq, Eq, Structural)]
pub struct Cost(pub u64);

/// The largest cost, used as the initial bound.
pub const INF_COST: u64 = 0xffff_ffff_ffff_ffff;

pub open spec fn inf() -> Cost {
    Cost(INF_COST)
}

/// The largest cost.
pub fn inf_cost() -> (r: Cost)
    ensures
        r == inf(),
{
    Cost(INF_COST)
}

/// Cost of a table scan.
pub const SCAN_COST: u64 = 10;

/// Cost of a hash join.
pub const HASH_JOIN_COST: u64 = 100;

pub open spec fn cost_add(a: Cost, b: Cost) -> Cost {
    if a.0 + b.0 >= u64::MAX {
        inf()
    } else {
        Cost((a.0 + b.0) as u64)
    }
}

impl Cost {
    /// Sum of two costs the largest cost where it would not fit.
    pub fn add(self, other: Cost) -> (r: Cost)
        ensures
            r == cost_add(self, other),
    {
        if self.0 >= u64::MAX - other.0 {
            Cost(INF_COST)
        } else {
            Cost(self.0 + other.0)
        }
    }

    pub fn less_than(self, other: Cost) -> (r: bool)
        ensures
            r == (self.0 < other.0),
    {
        self.0 < other.0
    }
}

/// Cost of `op` alone, without its inputs; a logical operator cannot be run
/// and costs `inf()`.
pub open spec fn operator_cost(op: OperatorV) -> Cost {
    match op {
        OperatorV::TableScan { .. } => Cost(SCAN_COST),
        OperatorV::HashJoin { .. } => Cost(HASH_JOIN_COST),
        _ => inf(),
    }
}

/// Fixed weights per physical operator.
#[derive(Clone, Copy, Debug)]
pub struct SimpleCostModel {}

#[derive(Clone, Copy, Debug)]
pub struct CostModel {
    inner: SimpleCostModel,
}

impl CostModel {
    pub fn new() -> (r: CostModel) {
        CostModel { inner: SimpleCostModel {} }
    }

    /// Cost of `op`, excluding its inputs.
    pub fn estimate_cost(&self, op: &Operator) -> (r: Cost)
        ensures
            r == operator_cost(op.view()),
    {
        match op {
            Operator::Physical(PhysicalOperator::PhysicalTableScan(_)) => Cost(SCAN_COST),
            Operator::Physical(PhysicalOperator::PhysicalHashJoin(_)) => Cost(HASH_JOIN_COST),
            Operator::Logical(_) => Cost(INF_COST),
        }
    }
}

impl Default for CostModel {
    fn default() -> (r: CostModel) {
        CostModel::new()
    }
}

} // verus!
