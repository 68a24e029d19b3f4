use dolomite::cost::CostModel;
use dolomite::error::OptimizerError;
use dolomite::expr::{binary_expr, col, BinaryOp};
use dolomite::memo::Memo;
use dolomite::operator::{JoinType, Operator, PhysicalOperator};
use dolomite::optimizer::{CascadesOptimizer, OptimizerContext, RuleImpl};
use dolomite::plan::PlanBuilder;
use dolomite::properties::PhysicalPropertySet;
use dolomite::rules::{
    OptExpression, RuleResult, CommutateJoinRule, Join2HashJoinRule, RemoveLimitRule, RuleId, Scan2TableScanRule,
};

fn join_plan() -> dolomite::plan::Plan {
    let builder = PlanBuilder::new().scan(None, "t2");
    let right = builder.current();
    builder
        .scan(None, "t1")
        .join(JoinType::Inner, binary_expr(col("t1.c1"), BinaryOp::Eq, col("t2.c2")), right)
        .build()
}

#[test]
fn test_optimize_join() {
    let plan = join_plan();
    let mut optimizer = CascadesOptimizer::new(
        PhysicalPropertySet::default(),
        vec![
            RuleImpl::CommutateJoin(CommutateJoinRule::new()),
            RuleImpl::Join2HashJoin(Join2HashJoinRule::new()),
            RuleImpl::Scan2TableScan(Scan2TableScanRule::new()),
        ],
        plan,
        OptimizerContext::new(),
        CostModel::default(),
    );

    let expected_plan = {
        let builder = PlanBuilder::new().table_scan(None, "t2");
        let right = builder.current();
        builder
            .table_scan(None, "t1")
            .hash_join(
                JoinType::Inner,
                binary_expr(col("t1.c1"), BinaryOp::Eq, col("t2.c2")),
                right,
            )
            .build()
    };

    let best = optimizer.find_best_plan().unwrap();
    assert!(expected_plan.same_as(&best));
}

#[test]
fn test_best_plan_cost_is_sum_of_operators() {
    let mut optimizer = CascadesOptimizer::new(
        PhysicalPropertySet::default(),
        vec![
            RuleImpl::Join2HashJoin(Join2HashJoinRule::new()),
            RuleImpl::Scan2TableScan(Scan2TableScanRule::new()),
        ],
        join_plan(),
        OptimizerContext::new(),
        CostModel::default(),
    );
    optimizer.find_best_plan().unwrap();
    let root = optimizer.memo.root_group_id();
    let w = optimizer.memo.winner_of(root, PhysicalPropertySet::any()).unwrap();
    assert_eq!(w.cost.0, 120);
    assert!(matches!(
        optimizer.memo.exprs[w.expr].operator,
        Operator::Physical(PhysicalOperator::PhysicalHashJoin(_))
    ));
}

#[test]
fn test_no_winner_under_single_partition() {
    let plan = PlanBuilder::new().scan(None, "t1").build();
    let mut optimizer = CascadesOptimizer::new(
        PhysicalPropertySet::single_partition(),
        vec![RuleImpl::Scan2TableScan(Scan2TableScanRule::new())],
        plan,
        OptimizerContext::new(),
        CostModel::default(),
    );
    assert_eq!(optimizer.find_best_plan().unwrap_err(), OptimizerError::NoWinner);
}

#[test]
fn test_no_winner_without_implementation_rules() {
    let plan = PlanBuilder::new().scan(None, "t1").limit(5).build();
    let mut optimizer = CascadesOptimizer::default(plan);
    assert_eq!(optimizer.find_best_plan().unwrap_err(), OptimizerError::NoWinner);
}

#[test]
fn test_limit_merge_output_already_in_memo() {
    // Limit(10) over Limit(5) over Scan(t1): the merged Limit(5) over the
    // scan group is the middle expression already, so nothing is added.
    let plan = PlanBuilder::new().scan(None, "t1").limit(5).limit(10).build();
    let mut optimizer = CascadesOptimizer::new(
        PhysicalPropertySet::default(),
        vec![RuleImpl::RemoveLimit(RemoveLimitRule::new())],
        plan,
        OptimizerContext::new(),
        CostModel::default(),
    );
    assert_eq!(optimizer.find_best_plan().unwrap_err(), OptimizerError::NoWinner);
    assert_eq!(optimizer.memo.exprs.len(), 3);
    assert!(optimizer.memo.has_applied(2, RuleId::RemoveLimit));
}

#[test]
fn test_limit_merge_adds_expression_to_root_group() {
    let plan = PlanBuilder::new().scan(None, "t1").limit(10).limit(5).build();
    let mut optimizer = CascadesOptimizer::new(
        PhysicalPropertySet::default(),
        vec![RuleImpl::RemoveLimit(RemoveLimitRule::new())],
        plan,
        OptimizerContext::new(),
        CostModel::default(),
    );
    assert_eq!(optimizer.find_best_plan().unwrap_err(), OptimizerError::NoWinner);
    let root = optimizer.memo.root;
    let limits: Vec<usize> = optimizer.memo.groups[root]
        .exprs
        .iter()
        .filter_map(|&e| match &optimizer.memo.exprs[e].operator {
            Operator::Logical(dolomite::operator::LogicalOperator::LogicalLimit(l)) => Some(l.limit),
            _ => None,
        })
        .collect();
    assert_eq!(limits, vec![5, 5]);
    let added = optimizer.memo.groups[root].exprs[1];
    assert_eq!(optimizer.memo.exprs[added].inputs, vec![0]);
}

#[test]
fn test_identical_subtrees_share_a_group() {
    let builder = PlanBuilder::new().scan(None, "t1");
    let right = builder.current();
    let plan = builder
        .scan(None, "t1")
        .join(JoinType::Inner, col("c"), right)
        .build();
    let memo = Memo::from_plan(&plan).unwrap();
    assert_eq!(memo.exprs.len(), 2);
    assert_eq!(memo.groups.len(), 2);
    let join = &memo.exprs[memo.groups[memo.root].exprs[0]];
    assert_eq!(join.inputs[0], join.inputs[1]);
}

#[test]
fn test_insert_existing_expression_returns_it() {
    let plan = PlanBuilder::new().scan(None, "t1").build();
    let mut memo = Memo::from_plan(&plan).unwrap();
    let op = plan.nodes[0].operator.deep_clone();
    let (e, g, new) = memo.insert_expr(op, vec![], None);
    assert_eq!((e, g, new), (0, 0, false));
    assert_eq!(memo.exprs.len(), 1);
}

#[test]
fn test_rule_fires_once_per_expression() {
    let plan = PlanBuilder::new().scan(None, "t1").build();
    let mut memo = Memo::from_plan(&plan).unwrap();
    memo.fire_rule(0, RuleId::Scan2TableScan).unwrap();
    assert_eq!(memo.exprs.len(), 2);
    assert!(memo.has_applied(0, RuleId::Scan2TableScan));
    memo.fire_rule(0, RuleId::Scan2TableScan).unwrap();
    assert_eq!(memo.exprs.len(), 2);
}

#[test]
fn test_winner_replaced_only_when_cheaper() {
    let plan = PlanBuilder::new().table_scan(None, "t1").build();
    let mut memo = Memo::from_plan(&plan).unwrap();
    let any = PhysicalPropertySet::any();
    memo.update_winner(0, any, 0, dolomite::cost::Cost(50));
    memo.update_winner(0, any, 0, dolomite::cost::Cost(70));
    assert_eq!(memo.winner_of(0, any).unwrap().cost.0, 50);
    memo.update_winner(0, any, 0, dolomite::cost::Cost(20));
    assert_eq!(memo.winner_of(0, any).unwrap().cost.0, 20);
}

#[test]
fn test_commutate_join_swaps_inputs_and_side() {
    let plan = {
        let builder = PlanBuilder::new().scan(None, "t2");
        let right = builder.current();
        builder.scan(None, "t1").join(JoinType::Left, col("c"), right).build()
    };
    let memo = Memo::from_plan(&plan).unwrap();
    let e = memo.groups[memo.root].exprs[0];
    let b = memo.bind(e, RuleId::CommutateJoin).remove(0);
    let mut result = RuleResult::new();
    CommutateJoinRule::new().apply(&b, &mut result).unwrap();
    match &result.exprs[0] {
        OptExpression::Node {
            operator: Operator::Logical(dolomite::operator::LogicalOperator::LogicalJoin(j)),
            inputs,
        } => {
            assert_eq!(j.join_type, JoinType::Right);
            assert_eq!(inputs, &vec![memo.exprs[e].inputs[1], memo.exprs[e].inputs[0]]);
        }
        other => panic!("unexpected output {:?}", other),
    }
}

fn join_optimizer() -> CascadesOptimizer {
    CascadesOptimizer::new(
        PhysicalPropertySet::default(),
        vec![
            RuleImpl::Join2HashJoin(Join2HashJoinRule::new()),
            RuleImpl::Scan2TableScan(Scan2TableScanRule::new()),
        ],
        join_plan(),
        OptimizerContext::new(),
        CostModel::default(),
    )
}

#[test]
fn test_cost_bound_below_best_cost_gives_no_winner() {
    let mut optimizer = join_optimizer();
    optimizer.set_cost_bound(dolomite::cost::Cost(119));
    assert_eq!(optimizer.find_best_plan().unwrap_err(), OptimizerError::NoWinner);
}

#[test]
fn test_cost_bound_at_best_cost_accepts_plan() {
    let mut optimizer = join_optimizer();
    optimizer.set_cost_bound(dolomite::cost::Cost(120));
    let best = optimizer.find_best_plan().unwrap();
    assert_eq!(best.nodes.len(), 3);
}

#[test]
fn test_estimate_cost_per_operator() {
    let model = CostModel::default();
    let scan = PlanBuilder::new().table_scan(None, "t1").build();
    assert_eq!(model.estimate_cost(&scan.nodes[0].operator).0, 10);
    let logical = PlanBuilder::new().scan(None, "t1").build();
    assert_eq!(model.estimate_cost(&logical.nodes[0].operator).0, u64::MAX);
    assert_eq!(dolomite::cost::Cost(u64::MAX - 1).add(dolomite::cost::Cost(5)).0, u64::MAX);
    assert_eq!(dolomite::cost::Cost(7).add(dolomite::cost::Cost(5)).0, 12);
}

#[test]
fn test_second_call_changes_nothing() {
    let mut optimizer = join_optimizer();
    let first = optimizer.find_best_plan().unwrap();
    let exprs = optimizer.memo.exprs.len();
    let groups = optimizer.memo.groups.len();
    let second = optimizer.find_best_plan().unwrap();
    assert!(first.same_as(&second));
    assert_eq!(optimizer.memo.exprs.len(), exprs);
    assert_eq!(optimizer.memo.groups.len(), groups);
}

#[test]
fn test_ingestion_one_expression_per_group() {
    let memo = Memo::from_plan(&join_plan()).unwrap();
    assert_eq!(memo.groups.len(), memo.exprs.len());
    assert!(memo.groups.iter().all(|g| g.exprs.len() == 1));
    assert!(memo.exprs.iter().all(|e| e.inputs.iter().all(|&c| c < e.group)));
}
