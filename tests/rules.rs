use dolomite::error::OptimizerError;
use dolomite::expr::{binary_expr, col, conjoin_equalities, split_equalities, BinaryOp};
use dolomite::memo::Memo;
use dolomite::operator::{Limit, LogicalOperator, Operator};
use dolomite::plan::{Plan, PlanBuilder};
use dolomite::rules::{
    OptExpression, PushLimitOverProjectionRule, PushLimitToTableScanRule, RemoveLimitRule,
    RuleId, RuleResult,
};

fn root_expr(memo: &Memo) -> usize {
    memo.groups[memo.root].exprs[0]
}

fn first_binding(plan: &Plan, id: RuleId) -> (Memo, OptExpression) {
    let memo = Memo::from_plan(plan).unwrap();
    let mut bindings = memo.bind(root_expr(&memo), id);
    assert!(!bindings.is_empty());
    let b = bindings.remove(0);
    (memo, b)
}

fn scan_group(memo: &Memo) -> usize {
    memo.exprs
        .iter()
        .find(|e| matches!(e.operator, Operator::Logical(LogicalOperator::LogicalScan(_))))
        .unwrap()
        .group
}

#[test]
fn test_push_limit_over_projection_pattern() {
    let original_plan = PlanBuilder::new()
        .scan(None, "t1")
        .limit(5)
        .projection(vec![col("c1")])
        .limit(10)
        .build();

    let rule = PushLimitOverProjectionRule::new();
    let root = &original_plan.nodes[original_plan.root()];
    assert!(rule.pattern().predict(&root.operator));
    assert!(matches!(
        root.operator,
        Operator::Logical(LogicalOperator::LogicalLimit(Limit { limit: 10 }))
    ));
}

#[test]
fn test_limit_merge() {
    let original_plan = PlanBuilder::new().scan(None, "t1").limit(5).limit(10).build();
    let (memo, opt_expr) = first_binding(&original_plan, RuleId::RemoveLimit);
    let table_scan_group_id = scan_group(&memo);

    let rule = RemoveLimitRule::new();
    let mut result = RuleResult::new();
    rule.apply(&opt_expr, &mut result).unwrap();

    assert_eq!(1, result.exprs.len());
    match &result.exprs[0] {
        OptExpression::Node { operator, inputs } => {
            assert!(matches!(
                operator,
                Operator::Logical(LogicalOperator::LogicalLimit(Limit { limit: 5 }))
            ));
            assert_eq!(inputs, &vec![table_scan_group_id]);
        }
        other => panic!("unexpected output {:?}", other),
    }
}

#[test]
fn test_push_limit_to_table_scan() {
    let original_plan = PlanBuilder::new().scan(None, "t1").limit(5).build();
    let (_memo, opt_expr) = first_binding(&original_plan, RuleId::PushLimitToTableScan);

    let rule = PushLimitToTableScanRule::new();
    let mut result = RuleResult::new();
    rule.apply(&opt_expr, &mut result).unwrap();

    assert_eq!(1, result.exprs.len());
    match &result.exprs[0] {
        OptExpression::Node { operator: Operator::Logical(LogicalOperator::LogicalScan(s)), inputs } => {
            assert_eq!(s.table_name, "t1");
            assert_eq!(s.limit, Some(5));
            assert!(inputs.is_empty());
        }
        other => panic!("unexpected output {:?}", other),
    }
}

#[test]
fn test_push_limit_to_table_scan_keeps_smaller_limit() {
    let original_plan = PlanBuilder::new().scan(Some(3), "t1").limit(5).build();
    let (_memo, opt_expr) = first_binding(&original_plan, RuleId::PushLimitToTableScan);

    let mut result = RuleResult::new();
    PushLimitToTableScanRule::new().apply(&opt_expr, &mut result).unwrap();
    match &result.exprs[0] {
        OptExpression::Node { operator: Operator::Logical(LogicalOperator::LogicalScan(s)), .. } => {
            assert_eq!(s.limit, Some(3));
        }
        other => panic!("unexpected output {:?}", other),
    }
}

#[test]
fn test_push_limit_over_projection() {
    let original_plan = PlanBuilder::new()
        .scan(None, "t1")
        .projection(vec![col("c1")])
        .limit(10)
        .build();
    let (memo, opt_expr) = first_binding(&original_plan, RuleId::PushLimitOverProjection);
    let table_scan_group_id = scan_group(&memo);

    let rule = PushLimitOverProjectionRule::new();
    let mut result = RuleResult::new();
    rule.apply(&opt_expr, &mut result).unwrap();

    assert_eq!(1, result.exprs.len());
    match &result.exprs[0] {
        OptExpression::Stacked {
            operator: Operator::Logical(LogicalOperator::LogicalProjection(p)),
            child,
            inputs,
        } => {
            assert_eq!(p.exprs.len(), 1);
            assert!(p.exprs[0].same_as(&col("c1")));
            assert!(matches!(
                child,
                Operator::Logical(LogicalOperator::LogicalLimit(Limit { limit: 10 }))
            ));
            assert_eq!(inputs, &vec![table_scan_group_id]);
        }
        other => panic!("unexpected output {:?}", other),
    }
}

#[test]
fn test_limit_merge_takes_minimum_either_way() {
    let plan = PlanBuilder::new().scan(None, "t1").limit(10).limit(5).build();
    let (_memo, opt_expr) = first_binding(&plan, RuleId::RemoveLimit);
    let mut result = RuleResult::new();
    RemoveLimitRule::new().apply(&opt_expr, &mut result).unwrap();
    assert!(matches!(
        &result.exprs[0],
        OptExpression::Node {
            operator: Operator::Logical(LogicalOperator::LogicalLimit(Limit { limit: 5 })),
            ..
        }
    ));
}

#[test]
fn test_rule_on_wrong_shape_is_pattern_mismatch() {
    let plan = PlanBuilder::new().scan(None, "t1").limit(5).build();
    let (_memo, opt_expr) = first_binding(&plan, RuleId::PushLimitToTableScan);
    let mut result = RuleResult::new();
    let r = RemoveLimitRule::new().apply(&opt_expr, &mut result);
    assert_eq!(r, Err(OptimizerError::PatternMismatch));
    assert!(result.exprs.is_empty());
}

#[test]
fn test_split_equalities_of_conjunction() {
    let cond = binary_expr(
        binary_expr(col("a"), BinaryOp::Eq, col("b")),
        BinaryOp::And,
        binary_expr(col("c"), BinaryOp::Eq, col("d")),
    );
    let pairs = split_equalities(&cond).unwrap();
    assert_eq!(pairs.len(), 2);
    assert!(pairs[0].0.same_as(&col("a")) && pairs[0].1.same_as(&col("b")));
    assert!(pairs[1].0.same_as(&col("c")) && pairs[1].1.same_as(&col("d")));
    let not_equi = binary_expr(col("a"), BinaryOp::Lt, col("b"));
    assert!(split_equalities(&not_equi).is_none());
}

#[test]
fn test_conjoin_equalities_round_trip() {
    assert!(conjoin_equalities(vec![]).is_none());
    let cond = conjoin_equalities(vec![(col("a"), col("b")), (col("c"), col("d"))]).unwrap();
    let expected = binary_expr(
        binary_expr(col("a"), BinaryOp::Eq, col("b")),
        BinaryOp::And,
        binary_expr(col("c"), BinaryOp::Eq, col("d")),
    );
    assert!(cond.same_as(&expected));
    assert_eq!(split_equalities(&cond).unwrap().len(), 2);
}
