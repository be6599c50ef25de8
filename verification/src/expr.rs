//! Expression trees: what the parser builds and the compiler lowers.

use crate::text::utf8;
use crate::types::{values_of, LiteralValue, SpecValue};
use vstd::prelude::*;
use vstd::string::*;

verus! {

/// The two logical connectives.
#[derive(Debug, Clone, Copy, PartialEq, Eq, Structural)]
pub enum LogicalOp {
    And,
    Or,
}

/// The comparison operators.
#[derive(Debug, Clone, Copy, PartialEq, Eq, Structural)]
pub enum ComparisonOp {
    Eq,
    Neq,
    Lt,
    Lte,
    Gt,
    Gte,
    In,
    NotIn,
    /// Regular-expression match.
    Matches,
    /// Glob match that ignores case.
    Wildcard,
    /// Glob match that respects case.
    StrictWildcard,
    /// Substring or element containment.
    Contains,
}

/// An expression tree. A bare name stands as `Value(Bytes(name))`; whether
/// it names a field is decided when the tree is compiled.
#[derive(Debug, PartialEq)]
#[allow(inconsistent_fields)]
pub enum FilterExpr {
    LogicalOp { op: LogicalOp, left: Box<FilterExpr>, right: Box<FilterExpr> },
    Comparison { left: Box<FilterExpr>, op: ComparisonOp, right: Box<FilterExpr> },
    Not(Box<FilterExpr>),
    Value(LiteralValue),
    FunctionCall { name: String, args: Vec<FilterExpr> },
    List(Vec<LiteralValue>),
}

/// What walks over expression trees. The embedding program implements it.
pub trait ExprVisitor {
    fn visit(&mut self, expr: &FilterExpr);
}

/// The mathematical value of an expression tree. Names are held as UTF-8
/// bytes.
#[allow(inconsistent_fields)]
pub enum SpecExpr {
    LogicalOp { op: LogicalOp, left: Box<SpecExpr>, right: Box<SpecExpr> },
    Comparison { left: Box<SpecExpr>, op: ComparisonOp, right: Box<SpecExpr> },
    Not(Box<SpecExpr>),
    Value(SpecValue),
    FunctionCall { name: Seq<u8>, args: Seq<SpecExpr> },
    List(Seq<SpecValue>),
}

/// The tree that `e` stands for.
pub open spec fn expr_of(e: FilterExpr) -> SpecExpr
    decreases e,
{
    match e {
        FilterExpr::LogicalOp { op, left, right } => SpecExpr::LogicalOp {
            op,
            left: Box::new(expr_of(*left)),
            right: Box::new(expr_of(*right)),
        },
        FilterExpr::Comparison { left, op, right } => SpecExpr::Comparison {
            left: Box::new(expr_of(*left)),
            op,
            right: Box::new(expr_of(*right)),
        },
        FilterExpr::Not(inner) => SpecExpr::Not(Box::new(expr_of(*inner))),
        FilterExpr::Value(v) => SpecExpr::Value(v@),
        FilterExpr::FunctionCall { name, args } => SpecExpr::FunctionCall {
            name: utf8(name@),
            args: Seq::new(
                args@.len(),
                |i: int|
                    if 0 <= i < args@.len() {
                        expr_of(args[i])
                    } else {
                        SpecExpr::List(Seq::empty())
                    },
            ),
        },
        FilterExpr::List(items) => SpecExpr::List(values_of(items@)),
    }
}

impl View for FilterExpr {
    type V = SpecExpr;

    open spec fn view(&self) -> SpecExpr {
        expr_of(*self)
    }
}

impl Clone for FilterExpr {
    /// A copy of the tree; the buffers of its values are shared.
    fn clone(&self) -> (r: Self)
        ensures
            r@ == self@,
        decreases *self,
    {
        match self {
            FilterExpr::LogicalOp { op, left, right } => FilterExpr::LogicalOp {
                op: *op,
                left: Box::new((&**left).clone()),
                right: Box::new((&**right).clone()),
            },
            FilterExpr::Comparison { left, op, right } => FilterExpr::Comparison {
                left: Box::new((&**left).clone()),
                op: *op,
                right: Box::new((&**right).clone()),
            },
            FilterExpr::Not(inner) => FilterExpr::Not(Box::new((&**inner).clone())),
            FilterExpr::Value(v) => FilterExpr::Value(v.clone()),
            FilterExpr::FunctionCall { name, args } => {
                let mut copies: Vec<FilterExpr> = Vec::new();
                let mut i: usize = 0;
                while i < args.len()
                    invariant
                        decreases_to!(*self => *args),
                        i <= args@.len(),
                        copies@.len() == i,
                        forall|k: int| 0 <= k < i ==> (#[trigger] copies@[k])@ == args@[k]@,
                    decreases args@.len() - i,
                {
                    copies.push((&args[i]).clone());
                    i += 1;
                }
                let r = FilterExpr::FunctionCall { name: name.clone(), args: copies };
                proof {
                    lemma_call_args(*name, *args);
                    lemma_call_args(r->FunctionCall_name, copies);
                    assert(exprs_of(copies@) =~= exprs_of(args@));
                }
                r
            },
            FilterExpr::List(items) => {
                let mut copies: Vec<LiteralValue> = Vec::new();
                let mut i: usize = 0;
                while i < items.len()
                    invariant
                        i <= items@.len(),
                        copies@.len() == i,
                        forall|k: int| 0 <= k < i ==> #[trigger] copies@[k] == items@[k],
                    decreases items@.len() - i,
                {
                    copies.push(items[i].clone());
                    i += 1;
                }
                assert(values_of(copies@) =~= values_of(items@));
                FilterExpr::List(copies)
            },
        }
    }
}

/// The trees that a sequence of expressions stands for.
pub open spec fn exprs_of(items: Seq<FilterExpr>) -> Seq<SpecExpr> {
    Seq::new(items.len(), |i: int| items[i]@)
}

/// The arguments of a call are the trees of its argument expressions.
pub proof fn lemma_call_args(name: String, args: Vec<FilterExpr>)
    ensures
        (FilterExpr::FunctionCall { name, args })@ == (SpecExpr::FunctionCall {
            name: utf8(name@),
            args: exprs_of(args@),
        }),
{
    assert((FilterExpr::FunctionCall { name, args })@->FunctionCall_args =~= exprs_of(args@));
}

} // verus!
