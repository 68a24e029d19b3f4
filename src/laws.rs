//! Laws that relate several operations of the optimizer.
use vstd::prelude::*;
use crate::memo::{Memo, Winner, offered};
use crate::operator::OperatorV;
use crate::optimizer::fired;
use crate::rules::{OptExpressionV, RuleId, min_usize, rule_output};

verus! {

/// The rows a limit of `n` keeps from `rows`.
pub open spec fn limit_rows<R>(rows: Seq<R>, n: usize) -> Seq<R> {
    if n as int <= rows.len() {
        rows.take(n as int)
    } else {
        rows
    }
}

/// The rows a projection computing `f` on each row yields.
pub open spec fn project_rows<R, S>(rows: Seq<R>, f: spec_fn(R) -> S) -> Seq<S> {
    rows.map_values(f)
}

/// Giving a rule a second turn at the same expression changes nothing: a
/// rule fires at most once per expression.
pub proof fn rule_fires_once(m0: Memo, m1: Memo, m2: Memo, e: int, id: RuleId)
    requires
        fired(m0, m1, e, id),
        fired(m1, m2, e, id),
    ensures
        m2 == m1,
{
}

/// Two expressions of a memo with the same operator and inputs are the same
/// expression.
pub proof fn interning(m: Memo, i: int, j: int)
    requires
        m.wf(),
        0 <= i < m.exprs@.len(),
        0 <= j < m.exprs@.len(),
        m.exprs@[i].key() == m.exprs@[j].key(),
    ensures
        i == j,
{
}

/// After a candidate is offered, the winner costs no more than the
/// candidate, nor than the winner before.
pub proof fn winner_cost_monotone(before: Option<Winner>, candidate: Winner)
    ensures
        offered(before, candidate) is Some,
        offered(before, candidate)->0.cost.0 <= candidate.cost.0,
        before is Some ==> offered(before, candidate)->0.cost.0 <= before->0.cost.0,
{
}

/// Two stacked limits of `a` and `b` rows keep what one limit of
/// `min(a, b)` keeps, and the rule that removes a limit emits exactly that
/// limit over the same inputs.
pub proof fn limit_merge<R>(rows: Seq<R>, a: usize, b: usize, inputs: Seq<usize>)
    ensures
        limit_rows(limit_rows(rows, b), a) == limit_rows(rows, min_usize(a, b)),
        rule_output(
            RuleId::RemoveLimit,
            OptExpressionV::Stacked {
                operator: OperatorV::Limit { limit: a },
                child: OperatorV::Limit { limit: b },
                inputs,
            },
        ) == Some(
            seq![OptExpressionV::Node { operator: OperatorV::Limit { limit: min_usize(a, b) }, inputs }],
        ),
{
    assert(limit_rows(limit_rows(rows, b), a) =~= limit_rows(rows, min_usize(a, b)));
}

/// A limit over a projection keeps what the projection over the limit
/// yields, and the rule that pushes a limit below a projection emits exactly
/// that swap.
pub proof fn limit_over_projection<R, S>(
    rows: Seq<R>,
    f: spec_fn(R) -> S,
    n: usize,
    exprs: Seq<crate::expr::ScalarExprV>,
    inputs: Seq<usize>,
)
    ensures
        limit_rows(project_rows(rows, f), n) == project_rows(limit_rows(rows, n), f),
        rule_output(
            RuleId::PushLimitOverProjection,
            OptExpressionV::Stacked {
                operator: OperatorV::Limit { limit: n },
                child: OperatorV::Projection { exprs },
                inputs,
            },
        ) == Some(
            seq![
                OptExpressionV::Stacked {
                    operator: OperatorV::Projection { exprs },
                    child: OperatorV::Limit { limit: n },
                    inputs,
                },
            ],
        ),
{
    assert(limit_rows(project_rows(rows, f), n) =~= project_rows(limit_rows(rows, n), f));
}

} // verus!
