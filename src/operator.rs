//! Logical and physical operators.
use vstd::prelude::*;
use crate::expr::{ScalarExpr, ScalarExprV, exprs_view, same_exprs, clone_exprs};

verus! {

#[derive(Clone, Copy, Debug, PartialEq, Eq, Structural)]
pub enum JoinType {
    Inner,
    Left,
    Right,
    Full,
}

/// Reads a table, optionally stopping after `limit` rows.
#[derive(Debug)]
pub struct TableScan {
    pub table_name: String,
    pub limit: Option<usize>,
}

/// Keeps the rows on which `predicate` holds.
#[derive(Debug)]
pub struct Filter {
    pub predicate: ScalarExpr,
}

/// Computes one output column per expression.
#[derive(Debug)]
pub struct Projection {
    pub exprs: Vec<ScalarExpr>,
}

/// Keeps at most `limit` rows.
#[derive(Clone, Copy, Debug, PartialEq, Eq, Structural)]
pub struct Limit {
    pub limit: usize,
}

/// Joins two inputs on `condition`.
#[derive(Debug)]
pub struct Join {
    pub join_type: JoinType,
    pub condition: ScalarExpr,
}

#[derive(Debug)]
pub enum LogicalOperator {
    LogicalScan(TableScan),
    LogicalFilter(Filter),
    LogicalProjection(Projection),
    LogicalLimit(Limit),
    LogicalJoin(Join),
}

#[derive(Debug)]
pub enum PhysicalOperator {
    PhysicalTableScan(TableScan),
    PhysicalHashJoin(Join),
}

#[derive(Debug)]
pub enum Operator {
    Logical(LogicalOperator),
    Physical(PhysicalOperator),
}

/// Mathematical value of an operator.
pub enum OperatorV {
    Scan { table: Seq<char>, limit: Option<usize> },
    Filter { predicate: ScalarExprV },
    Projection { exprs: Seq<ScalarExprV> },
    Limit { limit: usize },
    Join { join_type: JoinType, condition: ScalarExprV },
    TableScan { table: Seq<char>, limit: Option<usize> },
    HashJoin { join_type: JoinType, condition: ScalarExprV },
}

impl OperatorV {
    pub open spec fn is_logical(self) -> bool {
        !(self is TableScan || self is HashJoin)
    }

    /// Number of inputs the operator takes.
    pub open spec fn arity(self) -> nat {
        match self {
            OperatorV::Scan { .. } | OperatorV::TableScan { .. } => 0,
            OperatorV::Join { .. } | OperatorV::HashJoin { .. } => 2,
            _ => 1,
        }
    }
}

impl TableScan {
    pub fn new(table_name: &str) -> (r: TableScan)
        ensures
            r.table_name@ == table_name@,
            r.limit is None,
    {
        TableScan { table_name: table_name.to_string(), limit: None }
    }

    pub fn with_limit(table_name: &str, limit: usize) -> (r: TableScan)
        ensures
            r.table_name@ == table_name@,
            r.limit == Some(limit),
    {
        TableScan { table_name: table_name.to_string(), limit: Some(limit) }
    }
}

impl Limit {
    pub fn new(limit: usize) -> (r: Limit)
        ensures
            r.limit == limit,
    {
        Limit { limit }
    }
}

impl Projection {
    pub fn new(exprs: Vec<ScalarExpr>) -> (r: Projection)
        ensures
            r.exprs@ == exprs@,
    {
        Projection { exprs }
    }
}

impl Filter {
    pub fn new(predicate: ScalarExpr) -> (r: Filter)
        ensures
            r.predicate == predicate,
    {
        Filter { predicate }
    }
}

impl Join {
    pub fn new(join_type: JoinType, condition: ScalarExpr) -> (r: Join)
        ensures
            r.join_type == join_type,
            r.condition == condition,
    {
        Join { join_type, condition }
    }
}

impl Operator {
    pub open spec fn view(&self) -> OperatorV {
        match self {
            Operator::Logical(LogicalOperator::LogicalScan(s)) => OperatorV::Scan {
                table: s.table_name@,
                limit: s.limit,
            },
            Operator::Logical(LogicalOperator::LogicalFilter(f)) => OperatorV::Filter {
                predicate: f.predicate.view(),
            },
            Operator::Logical(LogicalOperator::LogicalProjection(p)) => OperatorV::Projection {
                exprs: exprs_view(p.exprs@),
            },
            Operator::Logical(LogicalOperator::LogicalLimit(l)) => OperatorV::Limit {
                limit: l.limit,
            },
            Operator::Logical(LogicalOperator::LogicalJoin(j)) => OperatorV::Join {
                join_type: j.join_type,
                condition: j.condition.view(),
            },
            Operator::Physical(PhysicalOperator::PhysicalTableScan(s)) => OperatorV::TableScan {
                table: s.table_name@,
                limit: s.limit,
            },
            Operator::Physical(PhysicalOperator::PhysicalHashJoin(j)) => OperatorV::HashJoin {
                join_type: j.join_type,
                condition: j.condition.view(),
            },
        }
    }

    pub fn is_logical(&self) -> (r: bool)
        ensures
            r == self.view().is_logical(),
    {
        match self {
            Operator::Logical(_) => true,
            Operator::Physical(_) => false,
        }
    }

    /// Number of inputs the operator takes.
    pub fn arity(&self) -> (r: usize)
        ensures
            r == self.view().arity(),
    {
        match self {
            Operator::Logical(LogicalOperator::LogicalScan(_)) => 0,
            Operator::Physical(PhysicalOperator::PhysicalTableScan(_)) => 0,
            Operator::Logical(LogicalOperator::LogicalJoin(_)) => 2,
            Operator::Physical(PhysicalOperator::PhysicalHashJoin(_)) => 2,
            _ => 1,
        }
    }

    /// A copy with the same value.
    pub fn deep_clone(&self) -> (r: Operator)
        ensures
            r.view() == self.view(),
    {
        match self {
            Operator::Logical(LogicalOperator::LogicalScan(s)) => Operator::Logical(
                LogicalOperator::LogicalScan(
                    TableScan { table_name: s.table_name.clone(), limit: s.limit },
                ),
            ),
            Operator::Logical(LogicalOperator::LogicalFilter(f)) => Operator::Logical(
                LogicalOperator::LogicalFilter(Filter { predicate: f.predicate.deep_clone() }),
            ),
            Operator::Logical(LogicalOperator::LogicalProjection(p)) => Operator::Logical(
                LogicalOperator::LogicalProjection(Projection { exprs: clone_exprs(&p.exprs) }),
            ),
            Operator::Logical(LogicalOperator::LogicalLimit(l)) => Operator::Logical(
                LogicalOperator::LogicalLimit(Limit { limit: l.limit }),
            ),
            Operator::Logical(LogicalOperator::LogicalJoin(j)) => Operator::Logical(
                LogicalOperator::LogicalJoin(
                    Join { join_type: j.join_type, condition: j.condition.deep_clone() },
                ),
            ),
            Operator::Physical(PhysicalOperator::PhysicalTableScan(s)) => Operator::Physical(
                PhysicalOperator::PhysicalTableScan(
                    TableScan { table_name: s.table_name.clone(), limit: s.limit },
                ),
            ),
            Operator::Physical(PhysicalOperator::PhysicalHashJoin(j)) => Operator::Physical(
                PhysicalOperator::PhysicalHashJoin(
                    Join { join_type: j.join_type, condition: j.condition.deep_clone() },
                ),
            ),
        }
    }

    /// Structural equality: same variant and equal payloads.
    pub fn same_as(&self, other: &Operator) -> (r: bool)
        ensures
            r == (self.view() == other.view()),
    {
        match (self, other) {
            (
                Operator::Logical(LogicalOperator::LogicalScan(a)),
                Operator::Logical(LogicalOperator::LogicalScan(b)),
            ) => a.table_name == b.table_name && a.limit == b.limit,
            (
                Operator::Logical(LogicalOperator::LogicalFilter(a)),
                Operator::Logical(LogicalOperator::LogicalFilter(b)),
            ) => a.predicate.same_as(&b.predicate),
            (
                Operator::Logical(LogicalOperator::LogicalProjection(a)),
                Operator::Logical(LogicalOperator::LogicalProjection(b)),
            ) => same_exprs(&a.exprs, &b.exprs),
            (
                Operator::Logical(LogicalOperator::LogicalLimit(a)),
                Operator::Logical(LogicalOperator::LogicalLimit(b)),
            ) => a.limit == b.limit,
            (
                Operator::Logical(LogicalOperator::LogicalJoin(a)),
                Operator::Logical(LogicalOperator::LogicalJoin(b)),
            ) => a.join_type == b.join_type && a.condition.same_as(&b.condition),
            (
                Operator::Physical(PhysicalOperator::PhysicalTableScan(a)),
                Operator::Physical(PhysicalOperator::PhysicalTableScan(b)),
            ) => a.table_name == b.table_name && a.limit == b.limit,
            (
                Operator::Physical(PhysicalOperator::PhysicalHashJoin(a)),
                Operator::Physical(PhysicalOperator::PhysicalHashJoin(b)),
            ) => a.join_type == b.join_type && a.condition.same_as(&b.condition),
            _ => false,
        }
    }
}

} // verus!
