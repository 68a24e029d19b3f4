use dolomite::error::OptimizerError;
use dolomite::expr::col;
use dolomite::heuristic::HeuristicOptimizer;
use dolomite::operator::JoinType;
use dolomite::optimizer::RuleImpl;
use dolomite::plan::PlanBuilder;
use dolomite::rules::{
    CommutateJoinRule, PushLimitOverProjectionRule, PushLimitToTableScanRule, RemoveLimitRule,
};

#[test]
fn test_heuristic_limit_merge() {
    let plan = PlanBuilder::new().scan(None, "t1").limit(5).limit(10).build();
    let optimizer =
        HeuristicOptimizer::new(vec![RuleImpl::RemoveLimit(RemoveLimitRule::new())], plan);
    let best = optimizer.find_best_plan().unwrap();
    let expected = PlanBuilder::new().scan(None, "t1").limit(5).build();
    assert!(expected.same_as(&best));
}

#[test]
fn test_heuristic_limit_merge_of_three() {
    let plan = PlanBuilder::new().scan(None, "t1").limit(8).limit(3).limit(10).build();
    let optimizer =
        HeuristicOptimizer::new(vec![RuleImpl::RemoveLimit(RemoveLimitRule::new())], plan);
    let best = optimizer.find_best_plan().unwrap();
    let expected = PlanBuilder::new().scan(None, "t1").limit(3).build();
    assert!(expected.same_as(&best));
}

#[test]
fn test_heuristic_limit_push_to_scan() {
    let plan = PlanBuilder::new().scan(None, "t1").limit(5).build();
    let optimizer = HeuristicOptimizer::new(
        vec![RuleImpl::PushLimitToTableScan(PushLimitToTableScanRule::new())],
        plan,
    );
    let best = optimizer.find_best_plan().unwrap();
    let expected = PlanBuilder::new().scan(Some(5), "t1").build();
    assert!(expected.same_as(&best));
    let unexpected = PlanBuilder::new().scan(None, "t1").limit(5).build();
    assert!(!unexpected.same_as(&best));
}

#[test]
fn test_heuristic_limit_over_projection() {
    let plan = PlanBuilder::new()
        .scan(None, "t1")
        .projection(vec![col("c1")])
        .limit(10)
        .build();
    let optimizer = HeuristicOptimizer::new(
        vec![RuleImpl::PushLimitOverProjection(PushLimitOverProjectionRule::new())],
        plan,
    );
    let best = optimizer.find_best_plan().unwrap();
    let expected = PlanBuilder::new()
        .scan(None, "t1")
        .limit(10)
        .projection(vec![col("c1")])
        .build();
    assert!(expected.same_as(&best));
}

#[test]
fn test_heuristic_without_rules_keeps_plan() {
    let plan = PlanBuilder::new().scan(None, "t1").limit(5).limit(10).build();
    let expected = PlanBuilder::new().scan(None, "t1").limit(5).limit(10).build();
    let optimizer = HeuristicOptimizer::new(vec![], plan);
    assert_eq!(optimizer.root_node_id(), 2);
    let best = optimizer.find_best_plan().unwrap();
    assert!(expected.same_as(&best));
}

#[test]
fn test_heuristic_gives_up_on_rules_that_never_settle() {
    let plan = {
        let builder = PlanBuilder::new().scan(None, "t2");
        let right = builder.current();
        builder.scan(None, "t1").join(JoinType::Inner, col("c"), right).build()
    };
    let optimizer =
        HeuristicOptimizer::new(vec![RuleImpl::CommutateJoin(CommutateJoinRule::new())], plan);
    assert_eq!(optimizer.find_best_plan().unwrap_err(), OptimizerError::InvariantViolation);
}
