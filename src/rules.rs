//! Patterns and rules.
//!
//! A rule is bound either to one operator whose inputs are groups
//! (`OptExpression::Node`) or to an operator over one child operator whose
//! inputs are groups (`OptExpression::Stacked`), and emits replacement
//! expressions of the same two shapes.
use vstd::prelude::*;
use crate::error::OptimizerError;
use crate::operator::{Join, JoinType, Limit, LogicalOperator, Operator, OperatorV, PhysicalOperator, TableScan};

verus! {

/// A tree of operators whose leaves refer to memo groups.
#[derive(Debug)]
pub enum OptExpression {
    /// `operator` over the groups `inputs`.
    Node { operator: Operator, inputs: Vec<usize> },
    /// `operator` over a single `child`, which is over the groups `inputs`.
    Stacked { operator: Operator, child: Operator, inputs: Vec<usize> },
}

pub enum OptExpressionV {
    Node { operator: OperatorV, inputs: Seq<usize> },
    Stacked { operator: OperatorV, child: OperatorV, inputs: Seq<usize> },
}

impl OptExpression {
    pub open spec fn view(&self) -> OptExpressionV {
        match self {
            OptExpression::Node { operator, inputs } => OptExpressionV::Node {
                operator: operator.view(),
                inputs: inputs@,
            },
            OptExpression::Stacked { operator, child, inputs } => OptExpressionV::Stacked {
                operator: operator.view(),
                child: child.view(),
                inputs: inputs@,
            },
        }
    }
}

pub open spec fn opt_exprs_view(s: Seq<OptExpression>) -> Seq<OptExpressionV> {
    s.map_values(|e: OptExpression| e.view())
}

/// Collects what a rule emits.
pub struct RuleResult {
    pub exprs: Vec<OptExpression>,
}

impl RuleResult {
    pub fn new() -> (r: RuleResult)
        ensures
            r.exprs@.len() == 0,
    {
        RuleResult { exprs: Vec::new() }
    }
}

/// The kind of operator a pattern node accepts.
#[derive(Clone, Copy, Debug, PartialEq, Eq, Structural)]
pub enum OperatorKind {
    Scan,
    Filter,
    Projection,
    Limit,
    Join,
}

pub open spec fn kind_matches(kind: OperatorKind, op: OperatorV) -> bool {
    match kind {
        OperatorKind::Scan => op is Scan,
        OperatorKind::Filter => op is Filter,
        OperatorKind::Projection => op is Projection,
        OperatorKind::Limit => op is Limit,
        OperatorKind::Join => op is Join,
    }
}

pub fn operator_matches(kind: OperatorKind, op: &Operator) -> (r: bool)
    ensures
        r == kind_matches(kind, op.view()),
{
    match (kind, op) {
        (OperatorKind::Scan, Operator::Logical(LogicalOperator::LogicalScan(_))) => true,
        (OperatorKind::Filter, Operator::Logical(LogicalOperator::LogicalFilter(_))) => true,
        (OperatorKind::Projection, Operator::Logical(LogicalOperator::LogicalProjection(_))) => true,
        (OperatorKind::Limit, Operator::Logical(LogicalOperator::LogicalLimit(_))) => true,
        (OperatorKind::Join, Operator::Logical(LogicalOperator::LogicalJoin(_))) => true,
        _ => false,
    }
}

/// A pattern of depth one (`child` is `None`) or two.
#[derive(Clone, Copy, Debug, PartialEq, Eq, Structural)]
pub struct Pattern {
    pub top: OperatorKind,
    pub child: Option<OperatorKind>,
}

impl Pattern {
    /// Whether the pattern's root accepts `op`.
    pub fn predict(&self, op: &Operator) -> (r: bool)
        ensures
            r == kind_matches(self.top, op.view()),
    {
        operator_matches(self.top, op)
    }
}

#[derive(Clone, Copy, Debug, PartialEq, Eq, Structural)]
pub enum RuleId {
    CommutateJoin,
    Join2HashJoin,
    Scan2TableScan,
    RemoveLimit,
    PushLimitOverProjection,
    PushLimitToTableScan,
}

#[derive(Clone, Copy, Debug, PartialEq, Eq, Structural)]
pub enum RulePromise {
    LOW,
    HIGH,
}

pub open spec fn min_usize(a: usize, b: usize) -> usize {
    if a <= b { a } else { b }
}

pub open spec fn commuted_join_type(t: JoinType) -> JoinType {
    match t {
        JoinType::Left => JoinType::Right,
        JoinType::Right => JoinType::Left,
        _ => t,
    }
}

/// What rule `id` emits for `input`; `None` where `input` is not of the
/// rule's shape.
pub open spec fn rule_output(id: RuleId, input: OptExpressionV) -> Option<Seq<OptExpressionV>> {
    match (id, input) {
        (
            RuleId::CommutateJoin,
            OptExpressionV::Node { operator: OperatorV::Join { join_type, condition }, inputs },
        ) => if inputs.len() == 2 {
            Some(
                seq![OptExpressionV::Node {
                    operator: OperatorV::Join {
                        join_type: commuted_join_type(join_type),
                        condition,
                    },
                    inputs: seq![inputs[1], inputs[0]],
                }],
            )
        } else {
            None
        },
        (
            RuleId::Join2HashJoin,
            OptExpressionV::Node { operator: OperatorV::Join { join_type, condition }, inputs },
        ) => Some(
            seq![OptExpressionV::Node {
                operator: OperatorV::HashJoin { join_type, condition },
                inputs,
            }],
        ),
        (
            RuleId::Scan2TableScan,
            OptExpressionV::Node { operator: OperatorV::Scan { table, limit }, inputs },
        ) => Some(
            seq![OptExpressionV::Node { operator: OperatorV::TableScan { table, limit }, inputs }],
        ),
        (
            RuleId::RemoveLimit,
            OptExpressionV::Stacked {
                operator: OperatorV::Limit { limit: a },
                child: OperatorV::Limit { limit: b },
                inputs,
            },
        ) => Some(
            seq![OptExpressionV::Node {
                operator: OperatorV::Limit { limit: min_usize(a, b) },
                inputs,
            }],
        ),
        (
            RuleId::PushLimitOverProjection,
            OptExpressionV::Stacked {
                operator: OperatorV::Limit { limit },
                child: OperatorV::Projection { exprs },
                inputs,
            },
        ) => Some(
            seq![OptExpressionV::Stacked {
                operator: OperatorV::Projection { exprs },
                child: OperatorV::Limit { limit },
                inputs,
            }],
        ),
        (
            RuleId::PushLimitToTableScan,
            OptExpressionV::Stacked {
                operator: OperatorV::Limit { limit },
                child: OperatorV::Scan { table, limit: scan_limit },
                inputs: _,
            },
        ) => Some(
            seq![OptExpressionV::Node {
                operator: OperatorV::Scan {
                    table,
                    limit: Some(
                        match scan_limit {
                            Some(l) => min_usize(l, limit),
                            None => limit,
                        },
                    ),
                },
                inputs: Seq::empty(),
            }],
        ),
        _ => None,
    }
}

/// The pattern that rule `id` binds.
pub open spec fn rule_pattern(id: RuleId) -> Pattern {
    match id {
        RuleId::CommutateJoin => Pattern { top: OperatorKind::Join, child: None },
        RuleId::Join2HashJoin => Pattern { top: OperatorKind::Join, child: None },
        RuleId::Scan2TableScan => Pattern { top: OperatorKind::Scan, child: None },
        RuleId::RemoveLimit => Pattern {
            top: OperatorKind::Limit,
            child: Some(OperatorKind::Limit),
        },
        RuleId::PushLimitOverProjection => Pattern {
            top: OperatorKind::Limit,
            child: Some(OperatorKind::Projection),
        },
        RuleId::PushLimitToTableScan => Pattern {
            top: OperatorKind::Limit,
            child: Some(OperatorKind::Scan),
        },
    }
}

} // verus!

verus! {

fn emit_one(e: OptExpression) -> (r: Vec<OptExpression>)
    ensures
        opt_exprs_view(r@) == seq![e.view()],
{
    let v = vec![e];
    proof {
        assert(opt_exprs_view(v@) =~= seq![e.view()]);
    }
    v
}

fn commutate_join(input: &OptExpression) -> (r: Result<Vec<OptExpression>, OptimizerError>)
    ensures
        match r {
            Ok(v) => rule_output(RuleId::CommutateJoin, input.view()) == Some(opt_exprs_view(v@)),
            Err(e) => rule_output(RuleId::CommutateJoin, input.view()) is None
                && e == OptimizerError::PatternMismatch,
        },
{
    if let OptExpression::Node { operator: Operator::Logical(LogicalOperator::LogicalJoin(j)), inputs } = input {
        if inputs.len() != 2 {
            return Err(OptimizerError::PatternMismatch);
        }
        let join_type = match j.join_type {
            JoinType::Left => JoinType::Right,
            JoinType::Right => JoinType::Left,
            t => t,
        };
        let op = Operator::Logical(
            LogicalOperator::LogicalJoin(Join { join_type, condition: j.condition.deep_clone() }),
        );
        let e = OptExpression::Node { operator: op, inputs: vec![inputs[1], inputs[0]] };
        Ok(emit_one(e))
    } else {
        Err(OptimizerError::PatternMismatch)
    }
}

fn join_to_hash_join(input: &OptExpression) -> (r: Result<Vec<OptExpression>, OptimizerError>)
    ensures
        match r {
            Ok(v) => rule_output(RuleId::Join2HashJoin, input.view()) == Some(opt_exprs_view(v@)),
            Err(e) => rule_output(RuleId::Join2HashJoin, input.view()) is None
                && e == OptimizerError::PatternMismatch,
        },
{
    if let OptExpression::Node { operator: Operator::Logical(LogicalOperator::LogicalJoin(j)), inputs } = input {
        let op = Operator::Physical(
            PhysicalOperator::PhysicalHashJoin(
                Join { join_type: j.join_type, condition: j.condition.deep_clone() },
            ),
        );
        let e = OptExpression::Node { operator: op, inputs: inputs.clone() };
        Ok(emit_one(e))
    } else {
        Err(OptimizerError::PatternMismatch)
    }
}

fn scan_to_table_scan(input: &OptExpression) -> (r: Result<Vec<OptExpression>, OptimizerError>)
    ensures
        match r {
            Ok(v) => rule_output(RuleId::Scan2TableScan, input.view()) == Some(opt_exprs_view(v@)),
            Err(e) => rule_output(RuleId::Scan2TableScan, input.view()) is None
                && e == OptimizerError::PatternMismatch,
        },
{
    if let OptExpression::Node { operator: Operator::Logical(LogicalOperator::LogicalScan(s)), inputs } = input {
        let op = Operator::Physical(
            PhysicalOperator::PhysicalTableScan(
                TableScan { table_name: s.table_name.clone(), limit: s.limit },
            ),
        );
        let e = OptExpression::Node { operator: op, inputs: inputs.clone() };
        Ok(emit_one(e))
    } else {
        Err(OptimizerError::PatternMismatch)
    }
}

fn remove_limit(input: &OptExpression) -> (r: Result<Vec<OptExpression>, OptimizerError>)
    ensures
        match r {
            Ok(v) => rule_output(RuleId::RemoveLimit, input.view()) == Some(opt_exprs_view(v@)),
            Err(e) => rule_output(RuleId::RemoveLimit, input.view()) is None
                && e == OptimizerError::PatternMismatch,
        },
{
    if let OptExpression::Stacked {
        operator: Operator::Logical(LogicalOperator::LogicalLimit(l1)),
        child: Operator::Logical(LogicalOperator::LogicalLimit(l2)),
        inputs,
    } = input {
        let n = if l1.limit <= l2.limit { l1.limit } else { l2.limit };
        let op = Operator::Logical(LogicalOperator::LogicalLimit(Limit { limit: n }));
        let e = OptExpression::Node { operator: op, inputs: inputs.clone() };
        Ok(emit_one(e))
    } else {
        Err(OptimizerError::PatternMismatch)
    }
}

fn push_limit_over_projection(input: &OptExpression) -> (r: Result<
    Vec<OptExpression>,
    OptimizerError,
>)
    ensures
        match r {
            Ok(v) => rule_output(RuleId::PushLimitOverProjection, input.view()) == Some(
                opt_exprs_view(v@),
            ),
            Err(e) => rule_output(RuleId::PushLimitOverProjection, input.view()) is None
                && e == OptimizerError::PatternMismatch,
        },
{
    if let OptExpression::Stacked {
        operator: limit @ Operator::Logical(LogicalOperator::LogicalLimit(_)),
        child: projection @ Operator::Logical(LogicalOperator::LogicalProjection(_)),
        inputs,
    } = input {
        let e = OptExpression::Stacked {
            operator: projection.deep_clone(),
            child: limit.deep_clone(),
            inputs: inputs.clone(),
        };
        Ok(emit_one(e))
    } else {
        Err(OptimizerError::PatternMismatch)
    }
}

fn push_limit_to_table_scan(input: &OptExpression) -> (r: Result<
    Vec<OptExpression>,
    OptimizerError,
>)
    ensures
        match r {
            Ok(v) => rule_output(RuleId::PushLimitToTableScan, input.view()) == Some(
                opt_exprs_view(v@),
            ),
            Err(e) => rule_output(RuleId::PushLimitToTableScan, input.view()) is None
                && e == OptimizerError::PatternMismatch,
        },
{
    if let OptExpression::Stacked {
        operator: Operator::Logical(LogicalOperator::LogicalLimit(l)),
        child: Operator::Logical(LogicalOperator::LogicalScan(s)),
        inputs: _,
    } = input {
        let n = match s.limit {
            Some(l1) => if l1 <= l.limit { l1 } else { l.limit },
            None => l.limit,
        };
        let op = Operator::Logical(
            LogicalOperator::LogicalScan(
                TableScan { table_name: s.table_name.clone(), limit: Some(n) },
            ),
        );
        let e = OptExpression::Node { operator: op, inputs: Vec::new() };
        Ok(emit_one(e))
    } else {
        Err(OptimizerError::PatternMismatch)
    }
}

} // verus!

verus! {

/// Runs rule `id` on `input` and appends what it emits to `result`.
pub fn apply_rule(id: RuleId, input: &OptExpression, result: &mut RuleResult) -> (r: Result<
    (),
    OptimizerError,
>)
    ensures
        match r {
            Ok(()) => rule_output(id, input.view()) is Some && opt_exprs_view(
                final(result).exprs@,
            ) == opt_exprs_view(old(result).exprs@) + rule_output(id, input.view())->0,
            Err(e) => rule_output(id, input.view()) is None && e
                == OptimizerError::PatternMismatch && final(result).exprs@ == old(
                result,
            ).exprs@,
        },
{
    let out = match id {
        RuleId::CommutateJoin => commutate_join(input),
        RuleId::Join2HashJoin => join_to_hash_join(input),
        RuleId::Scan2TableScan => scan_to_table_scan(input),
        RuleId::RemoveLimit => remove_limit(input),
        RuleId::PushLimitOverProjection => push_limit_over_projection(input),
        RuleId::PushLimitToTableScan => push_limit_to_table_scan(input),
    };
    match out {
        Ok(v) => {
            let mut v = v;
            let ghost before = result.exprs@;
            let ghost added = v@;
            result.exprs.append(&mut v);
            proof {
                assert(opt_exprs_view(result.exprs@) =~= opt_exprs_view(before) + opt_exprs_view(
                    added,
                ));
            }
            Ok(())
        },
        Err(e) => Err(e),
    }
}

/// Promise of rule `id`: implementation rules run first.
pub open spec fn rule_promise_of(id: RuleId) -> RulePromise {
    match id {
        RuleId::CommutateJoin => RulePromise::HIGH,
        RuleId::Join2HashJoin => RulePromise::HIGH,
        RuleId::Scan2TableScan => RulePromise::HIGH,
        RuleId::RemoveLimit => RulePromise::LOW,
        RuleId::PushLimitOverProjection => RulePromise::LOW,
        RuleId::PushLimitToTableScan => RulePromise::LOW,
    }
}

#[derive(Clone, Copy, Debug)]
pub struct CommutateJoinRule {}

impl CommutateJoinRule {
    pub fn new() -> (r: CommutateJoinRule) {
        CommutateJoinRule {}
    }

    pub fn rule_id(&self) -> (r: RuleId)
        ensures
            r == RuleId::CommutateJoin,
    {
        RuleId::CommutateJoin
    }

    pub fn rule_promise(&self) -> (r: RulePromise)
        ensures
            r == rule_promise_of(RuleId::CommutateJoin),
    {
        RulePromise::HIGH
    }

    pub fn pattern(&self) -> (r: Pattern)
        ensures
            r == rule_pattern(RuleId::CommutateJoin),
    {
        rule_impl_pattern(RuleId::CommutateJoin)
    }

    pub fn apply(&self, input: &OptExpression, result: &mut RuleResult) -> (r: Result<
        (),
        OptimizerError,
    >)
        ensures
            match r {
                Ok(()) => rule_output(RuleId::CommutateJoin, input.view()) is Some && opt_exprs_view(
                    final(result).exprs@,
                ) == opt_exprs_view(old(result).exprs@) + rule_output(
                    RuleId::CommutateJoin,
                    input.view(),
                )->0,
                Err(e) => rule_output(RuleId::CommutateJoin, input.view()) is None && e
                    == OptimizerError::PatternMismatch && final(result).exprs@ == old(
                    result,
                ).exprs@,
            },
    {
        apply_rule(RuleId::CommutateJoin, input, result)
    }
}

#[derive(Clone, Copy, Debug)]
pub struct Join2HashJoinRule {}

impl Join2HashJoinRule {
    pub fn new() -> (r: Join2HashJoinRule) {
        Join2HashJoinRule {}
    }

    pub fn rule_id(&self) -> (r: RuleId)
        ensures
            r == RuleId::Join2HashJoin,
    {
        RuleId::Join2HashJoin
    }

    pub fn rule_promise(&self) -> (r: RulePromise)
        ensures
            r == rule_promise_of(RuleId::Join2HashJoin),
    {
        RulePromise::HIGH
    }

    pub fn pattern(&self) -> (r: Pattern)
        ensures
            r == rule_pattern(RuleId::Join2HashJoin),
    {
        rule_impl_pattern(RuleId::Join2HashJoin)
    }

    pub fn apply(&self, input: &OptExpression, result: &mut RuleResult) -> (r: Result<
        (),
        OptimizerError,
    >)
        ensures
            match r {
                Ok(()) => rule_output(RuleId::Join2HashJoin, input.view()) is Some && opt_exprs_view(
                    final(result).exprs@,
                ) == opt_exprs_view(old(result).exprs@) + rule_output(
                    RuleId::Join2HashJoin,
                    input.view(),
                )->0,
                Err(e) => rule_output(RuleId::Join2HashJoin, input.view()) is None && e
                    == OptimizerError::PatternMismatch && final(result).exprs@ == old(
                    result,
                ).exprs@,
            },
    {
        apply_rule(RuleId::Join2HashJoin, input, result)
    }
}

#[derive(Clone, Copy, Debug)]
pub struct Scan2TableScanRule {}

impl Scan2TableScanRule {
    pub fn new() -> (r: Scan2TableScanRule) {
        Scan2TableScanRule {}
    }

    pub fn rule_id(&self) -> (r: RuleId)
        ensures
            r == RuleId::Scan2TableScan,
    {
        RuleId::Scan2TableScan
    }

    pub fn rule_promise(&self) -> (r: RulePromise)
        ensures
            r == rule_promise_of(RuleId::Scan2TableScan),
    {
        RulePromise::HIGH
    }

    pub fn pattern(&self) -> (r: Pattern)
        ensures
            r == rule_pattern(RuleId::Scan2TableScan),
    {
        rule_impl_pattern(RuleId::Scan2TableScan)
    }

    pub fn apply(&self, input: &OptExpression, result: &mut RuleResult) -> (r: Result<
        (),
        OptimizerError,
    >)
        ensures
            match r {
                Ok(()) => rule_output(RuleId::Scan2TableScan, input.view()) is Some && opt_exprs_view(
                    final(result).exprs@,
                ) == opt_exprs_view(old(result).exprs@) + rule_output(
                    RuleId::Scan2TableScan,
                    input.view(),
                )->0,
                Err(e) => rule_output(RuleId::Scan2TableScan, input.view()) is None && e
                    == OptimizerError::PatternMismatch && final(result).exprs@ == old(
                    result,
                ).exprs@,
            },
    {
        apply_rule(RuleId::Scan2TableScan, input, result)
    }
}

#[derive(Clone, Copy, Debug)]
pub struct RemoveLimitRule {}

impl RemoveLimitRule {
    pub fn new() -> (r: RemoveLimitRule) {
        RemoveLimitRule {}
    }

    pub fn rule_id(&self) -> (r: RuleId)
        ensures
            r == RuleId::RemoveLimit,
    {
        RuleId::RemoveLimit
    }

    pub fn rule_promise(&self) -> (r: RulePromise)
        ensures
            r == rule_promise_of(RuleId::RemoveLimit),
    {
        RulePromise::LOW
    }

    pub fn pattern(&self) -> (r: Pattern)
        ensures
            r == rule_pattern(RuleId::RemoveLimit),
    {
        rule_impl_pattern(RuleId::RemoveLimit)
    }

    pub fn apply(&self, input: &OptExpression, result: &mut RuleResult) -> (r: Result<
        (),
        OptimizerError,
    >)
        ensures
            match r {
                Ok(()) => rule_output(RuleId::RemoveLimit, input.view()) is Some && opt_exprs_view(
                    final(result).exprs@,
                ) == opt_exprs_view(old(result).exprs@) + rule_output(
                    RuleId::RemoveLimit,
                    input.view(),
                )->0,
                Err(e) => rule_output(RuleId::RemoveLimit, input.view()) is None && e
                    == OptimizerError::PatternMismatch && final(result).exprs@ == old(
                    result,
                ).exprs@,
            },
    {
        apply_rule(RuleId::RemoveLimit, input, result)
    }
}

#[derive(Clone, Copy, Debug)]
pub struct PushLimitOverProjectionRule {}

impl PushLimitOverProjectionRule {
    pub fn new() -> (r: PushLimitOverProjectionRule) {
        PushLimitOverProjectionRule {}
    }

    pub fn rule_id(&self) -> (r: RuleId)
        ensures
            r == RuleId::PushLimitOverProjection,
    {
        RuleId::PushLimitOverProjection
    }

    pub fn rule_promise(&self) -> (r: RulePromise)
        ensures
            r == rule_promise_of(RuleId::PushLimitOverProjection),
    {
        RulePromise::LOW
    }

    pub fn pattern(&self) -> (r: Pattern)
        ensures
            r == rule_pattern(RuleId::PushLimitOverProjection),
    {
        rule_impl_pattern(RuleId::PushLimitOverProjection)
    }

    pub fn apply(&self, input: &OptExpression, result: &mut RuleResult) -> (r: Result<
        (),
        OptimizerError,
    >)
        ensures
            match r {
                Ok(()) => rule_output(RuleId::PushLimitOverProjection, input.view()) is Some && opt_exprs_view(
                    final(result).exprs@,
                ) == opt_exprs_view(old(result).exprs@) + rule_output(
                    RuleId::PushLimitOverProjection,
                    input.view(),
                )->0,
                Err(e) => rule_output(RuleId::PushLimitOverProjection, input.view()) is None && e
                    == OptimizerError::PatternMismatch && final(result).exprs@ == old(
                    result,
                ).exprs@,
            },
    {
        apply_rule(RuleId::PushLimitOverProjection, input, result)
    }
}

#[derive(Clone, Copy, Debug)]
pub struct PushLimitToTableScanRule {}

impl PushLimitToTableScanRule {
    pub fn new() -> (r: PushLimitToTableScanRule) {
        PushLimitToTableScanRule {}
    }

    pub fn rule_id(&self) -> (r: RuleId)
        ensures
            r == RuleId::PushLimitToTableScan,
    {
        RuleId::PushLimitToTableScan
    }

    pub fn rule_promise(&self) -> (r: RulePromise)
        ensures
            r == rule_promise_of(RuleId::PushLimitToTableScan),
    {
        RulePromise::LOW
    }

    pub fn pattern(&self) -> (r: Pattern)
        ensures
            r == rule_pattern(RuleId::PushLimitToTableScan),
    {
        rule_impl_pattern(RuleId::PushLimitToTableScan)
    }

    pub fn apply(&self, input: &OptExpression, result: &mut RuleResult) -> (r: Result<
        (),
        OptimizerError,
    >)
        ensures
            match r {
                Ok(()) => rule_output(RuleId::PushLimitToTableScan, input.view()) is Some && opt_exprs_view(
                    final(result).exprs@,
                ) == opt_exprs_view(old(result).exprs@) + rule_output(
                    RuleId::PushLimitToTableScan,
                    input.view(),
                )->0,
                Err(e) => rule_output(RuleId::PushLimitToTableScan, input.view()) is None && e
                    == OptimizerError::PatternMismatch && final(result).exprs@ == old(
                    result,
                ).exprs@,
            },
    {
        apply_rule(RuleId::PushLimitToTableScan, input, result)
    }
}

/// The pattern that rule `id` binds.
pub fn rule_impl_pattern(id: RuleId) -> (r: Pattern)
    ensures
        r == rule_pattern(id),
{
    match id {
        RuleId::CommutateJoin => Pattern { top: OperatorKind::Join, child: None },
        RuleId::Join2HashJoin => Pattern { top: OperatorKind::Join, child: None },
        RuleId::Scan2TableScan => Pattern { top: OperatorKind::Scan, child: None },
        RuleId::RemoveLimit => Pattern {
            top: OperatorKind::Limit,
            child: Some(OperatorKind::Limit),
        },
        RuleId::PushLimitOverProjection => Pattern {
            top: OperatorKind::Limit,
            child: Some(OperatorKind::Projection),
        },
        RuleId::PushLimitToTableScan => Pattern {
            top: OperatorKind::Limit,
            child: Some(OperatorKind::Scan),
        },
    }
}

/// Promise of rule `id`.
pub fn rule_impl_promise(id: RuleId) -> (r: RulePromise)
    ensures
        r == rule_promise_of(id),
{
    match id {
        RuleId::CommutateJoin => RulePromise::HIGH,
        RuleId::Join2HashJoin => RulePromise::HIGH,
        RuleId::Scan2TableScan => RulePromise::HIGH,
        RuleId::RemoveLimit => RulePromise::LOW,
        RuleId::PushLimitOverProjection => RulePromise::LOW,
        RuleId::PushLimitToTableScan => RulePromise::LOW,
    }
}

} // verus!
