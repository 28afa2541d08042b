use crate::network::value::ONE_BITS;
use crate::network::value::Value;
use vstd::prelude::*;

verus! {

/// How the contributions of a node's edges are folded into the node's value.
#[derive(Debug, Clone, Copy, PartialEq, Eq, Structural)]
pub enum Combinator {
    Add,
    Mul,
}

/// The nonlinearity applied to each weighted input.
#[derive(Debug, Clone, Copy, PartialEq, Eq, Structural)]
pub enum Activator {
    Binary,
    ReLU,
    Tanh,
}

/// One piece of arithmetic that the network asks of its caller.
#[derive(Debug, Clone, Copy, PartialEq, Eq, Structural)]
pub enum Operation {
    /// The activator applied to the product of `input` and `weight`: what one
    /// edge contributes to its node.
    Weigh { activator: Activator, input: Value, weight: Value },
    /// The combinator applied to two contributions.
    Combine { combinator: Combinator, left: Value, right: Value },
}

/// Whether `arith` answers every operation.
pub open spec fn answers_all<A: Fn(Operation) -> Value>(arith: &A) -> bool {
    forall|operation: Operation| #[trigger] arith.requires((operation,))
}

/// The neutral element of a combinator: zero for addition, one for
/// multiplication.
pub open spec fn neutral_of(combinator: Combinator) -> Value {
    match combinator {
        Combinator::Add => Value { bits: 0 },
        Combinator::Mul => Value { bits: ONE_BITS },
    }
}

/// Whether `out` is a value that `arith` can give when it folds `items` from
/// the left with the combinator. No items fold to the combinator's neutral
/// element, one item to itself.
pub open spec fn combines_to<A: Fn(Operation) -> Value>(
    arith: &A,
    combinator: Combinator,
    items: Seq<Value>,
    out: Value,
) -> bool
    decreases items.len(),
{
    if items.len() == 0 {
        out == neutral_of(combinator)
    } else if items.len() == 1 {
        out == items[0]
    } else {
        exists|folded: Value|
            combines_to(arith, combinator, items.drop_last(), folded) && #[trigger] arith.ensures(
                (Operation::Combine { combinator, left: folded, right: items.last() },),
                out,
            )
    }
}

impl Combinator {
    /// The neutral element: what a node without edges computes to.
    pub fn neutral(&self) -> (value: Value)
        ensures
            value == neutral_of(*self),
    {
        match self {
            Combinator::Add => Value::zero(),
            Combinator::Mul => Value::one(),
        }
    }

    /// Combines two contributions by asking `arith`.
    pub fn combine<A: Fn(Operation) -> Value>(&self, a: Value, b: Value, arith: &A) -> (out: Value)
        requires
            answers_all(arith),
        ensures
            arith.ensures((Operation::Combine { combinator: *self, left: a, right: b },), out),
    {
        arith(Operation::Combine { combinator: *self, left: a, right: b })
    }
}

impl Activator {
    /// The activation of the product of `input` and `weight`, by asking `arith`.
    pub fn activate<A: Fn(Operation) -> Value>(&self, input: Value, weight: Value, arith: &A) -> (out:
        Value)
        requires
            answers_all(arith),
        ensures
            arith.ensures((Operation::Weigh { activator: *self, input, weight },), out),
    {
        arith(Operation::Weigh { activator: *self, input, weight })
    }
}

} // verus!
