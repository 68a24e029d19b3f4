//! Scalar expressions carried by operators.
//!
//! The optimizer never looks inside these beyond structural equality and
//! cloning; they are supplied by whoever builds the plan.
use vstd::prelude::*;

verus! {

/// Binary operators that may appear inside a scalar expression.
#[derive(Clone, Copy, Debug, PartialEq, Eq, Structural)]
pub enum BinaryOp {
    Eq,
    NotEq,
    Lt,
    Gt,
    And,
    Or,
}

/// An opaque scalar expression: a column reference, an integer literal, or a
/// binary expression over two sub-expressions.
#[derive(Debug)]
pub enum ScalarExpr {
    Column(String),
    Literal(i64),
    Binary(BinaryOp, Box<ScalarExpr>, Box<ScalarExpr>),
}

/// Mathematical value of a scalar expression.
pub enum ScalarExprV {
    Column(Seq<char>),
    Literal(i64),
    Binary(BinaryOp, Box<ScalarExprV>, Box<ScalarExprV>),
}

impl ScalarExpr {
    pub open spec fn view(&self) -> ScalarExprV
        decreases self,
    {
        match self {
            ScalarExpr::Column(c) => ScalarExprV::Column(c@),
            ScalarExpr::Literal(v) => ScalarExprV::Literal(*v),
            ScalarExpr::Binary(op, l, r) => ScalarExprV::Binary(
                *op,
                Box::new((**l).view()),
                Box::new((**r).view()),
            ),
        }
    }

    /// A copy with the same value.
    pub fn deep_clone(&self) -> (r: ScalarExpr)
        ensures
            r.view() == self.view(),
        decreases self,
    {
        match self {
            ScalarExpr::Column(c) => ScalarExpr::Column(c.clone()),
            ScalarExpr::Literal(v) => ScalarExpr::Literal(*v),
            ScalarExpr::Binary(op, l, r) => {
                let nl = (**l).deep_clone();
                let nr = (**r).deep_clone();
                ScalarExpr::Binary(*op, Box::new(nl), Box::new(nr))
            },
        }
    }

    /// Structural equality.
    pub fn same_as(&self, other: &ScalarExpr) -> (r: bool)
        ensures
            r == (self.view() == other.view()),
        decreases self,
    {
        match (self, other) {
            (ScalarExpr::Column(a), ScalarExpr::Column(b)) => *a == *b,
            (ScalarExpr::Literal(a), ScalarExpr::Literal(b)) => *a == *b,
            (ScalarExpr::Binary(o1, l1, r1), ScalarExpr::Binary(o2, l2, r2)) => {
                if *o1 != *o2 {
                    return false;
                }
                let el = (**l1).same_as(&**l2);
                if !el {
                    assert(self.view()->Binary_1 != other.view()->Binary_1);
                    return false;
                }
                let er = (**r1).same_as(&**r2);
                proof {
                    if !er {
                        assert(self.view()->Binary_2 != other.view()->Binary_2);
                    }
                }
                er
            },
            _ => false,
        }
    }
}

/// A reference to the column of the given name.
pub fn col(name: &str) -> (r: ScalarExpr)
    ensures
        r.view() == ScalarExprV::Column(name@),
{
    ScalarExpr::Column(name.to_string())
}

/// The binary expression `left op right`.
pub fn binary_expr(left: ScalarExpr, op: BinaryOp, right: ScalarExpr) -> (r: ScalarExpr)
    ensures
        r.view() == ScalarExprV::Binary(op, Box::new(left.view()), Box::new(right.view())),
{
    ScalarExpr::Binary(op, Box::new(left), Box::new(right))
}

/// Element-wise structural equality of two expression lists.
pub fn same_exprs(a: &Vec<ScalarExpr>, b: &Vec<ScalarExpr>) -> (r: bool)
    ensures
        r == (exprs_view(a@) == exprs_view(b@)),
{
    if a.len() != b.len() {
        proof {
            assert(exprs_view(a@).len() != exprs_view(b@).len());
        }
        return false;
    }
    let mut i: usize = 0;
    while i < a.len()
        invariant
            a.len() == b.len(),
            i <= a.len(),
            forall|j: int| 0 <= j < i ==> a@[j].view() == b@[j].view(),
        decreases a.len() - i,
    {
        if !a[i].same_as(&b[i]) {
            proof {
                assert(exprs_view(a@)[i as int] != exprs_view(b@)[i as int]);
            }
            return false;
        }
        i = i + 1;
    }
    proof {
        assert(exprs_view(a@) =~= exprs_view(b@));
    }
    true
}

/// Copy of an expression list with the same value.
pub fn clone_exprs(a: &Vec<ScalarExpr>) -> (r: Vec<ScalarExpr>)
    ensures
        exprs_view(r@) == exprs_view(a@),
{
    let mut out: Vec<ScalarExpr> = Vec::new();
    let mut i: usize = 0;
    while i < a.len()
        invariant
            i <= a.len(),
            out@.len() == i,
            forall|j: int| 0 <= j < i ==> out@[j].view() == a@[j].view(),
        decreases a.len() - i,
    {
        let e = a[i].deep_clone();
        out.push(e);
        i = i + 1;
    }
    proof {
        assert(exprs_view(out@) =~= exprs_view(a@));
    }
    out
}

/// Values of a list of expressions.
pub open spec fn exprs_view(s: Seq<ScalarExpr>) -> Seq<ScalarExprV> {
    s.map_values(|e: ScalarExpr| e.view())
}

} // verus!

verus! {

/// The equality pairs of a conjunction of equalities (`a = b AND c = d`),
/// left to right; `None` where a conjunct is not an equality.
pub open spec fn equi_pairs(e: ScalarExprV) -> Option<Seq<(ScalarExprV, ScalarExprV)>>
    decreases e,
{
    match e {
        ScalarExprV::Binary(BinaryOp::And, l, r) => match (equi_pairs(*l), equi_pairs(*r)) {
            (Some(a), Some(b)) => Some(a + b),
            _ => None,
        },
        ScalarExprV::Binary(BinaryOp::Eq, l, r) => Some(seq![(*l, *r)]),
        _ => None,
    }
}

pub open spec fn pairs_view(s: Seq<(ScalarExpr, ScalarExpr)>) -> Seq<(ScalarExprV, ScalarExprV)> {
    s.map_values(|p: (ScalarExpr, ScalarExpr)| (p.0.view(), p.1.view()))
}

/// Splits a join condition into the pairs of its equalities.
pub fn split_equalities(e: &ScalarExpr) -> (r: Option<Vec<(ScalarExpr, ScalarExpr)>>)
    ensures
        match r {
            Some(v) => equi_pairs(e.view()) == Some(pairs_view(v@)),
            None => equi_pairs(e.view()) is None,
        },
    decreases e,
{
    match e {
        ScalarExpr::Binary(BinaryOp::And, l, r) => {
            let a = split_equalities(&**l);
            let b = split_equalities(&**r);
            match (a, b) {
                (Some(a), Some(b)) => {
                    let mut a = a;
                    let mut b = b;
                    let ghost av = a@;
                    let ghost bv = b@;
                    a.append(&mut b);
                    proof {
                        assert(pairs_view(a@) =~= pairs_view(av) + pairs_view(bv));
                    }
                    Some(a)
                },
                _ => None,
            }
        },
        ScalarExpr::Binary(BinaryOp::Eq, l, r) => {
            let v = vec![((**l).deep_clone(), (**r).deep_clone())];
            proof {
                assert(pairs_view(v@) =~= seq![((**l).view(), (**r).view())]);
            }
            Some(v)
        },
        _ => None,
    }
}

/// The conjunction of the equalities of `pairs`, left-nested; `None` for no
/// pairs.
pub open spec fn conjoined(pairs: Seq<(ScalarExprV, ScalarExprV)>) -> Option<ScalarExprV>
    decreases pairs.len(),
{
    if pairs.len() == 0 {
        None
    } else {
        let last = ScalarExprV::Binary(
            BinaryOp::Eq,
            Box::new(pairs.last().0),
            Box::new(pairs.last().1),
        );
        match conjoined(pairs.drop_last()) {
            None => Some(last),
            Some(prev) => Some(ScalarExprV::Binary(BinaryOp::And, Box::new(prev), Box::new(last))),
        }
    }
}

/// Joins equality pairs into one condition, `(a = b AND c = d) AND ...`.
pub fn conjoin_equalities(pairs: Vec<(ScalarExpr, ScalarExpr)>) -> (r: Option<ScalarExpr>)
    ensures
        match r {
            Some(e) => conjoined(pairs_view(pairs@)) == Some(e.view()),
            None => conjoined(pairs_view(pairs@)) is None,
        },
{
    let mut acc: Option<ScalarExpr> = None;
    let mut i: usize = 0;
    let ghost pv = pairs_view(pairs@);
    while i < pairs.len()
        invariant
            i <= pairs@.len(),
            pv == pairs_view(pairs@),
            match acc {
                Some(e) => conjoined(pv.take(i as int)) == Some(e.view()),
                None => conjoined(pv.take(i as int)) is None,
            },
        decreases pairs@.len() - i,
    {
        let eq = ScalarExpr::Binary(
            BinaryOp::Eq,
            Box::new(pairs[i].0.deep_clone()),
            Box::new(pairs[i].1.deep_clone()),
        );
        proof {
            assert(pv.take(i as int + 1).drop_last() =~= pv.take(i as int));
        }
        acc = match acc {
            None => Some(eq),
            Some(prev) => Some(ScalarExpr::Binary(BinaryOp::And, Box::new(prev), Box::new(eq))),
        };
        i = i + 1;
    }
    proof {
        assert(pv.take(i as int) =~= pv);
    }
    acc
}

} // verus!
