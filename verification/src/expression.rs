//! Stack-machine expressions used as rule filters.
//!
//! An [`Expression`] is an ordered sequence of operations evaluated
//! against a complete variable binding. Evaluation either yields a
//! single value — the stack must hold exactly one element at the end —
//! or fails: on stack underflow, leftover residue, a type mismatch, or
//! an unbound variable. Integer arithmetic wraps in two's-complement
//! 64-bit fashion. A rule's expression filter passes only when every
//! expression yields the boolean true.

use vstd::prelude::*;

use crate::matching::{Binding, env_get, opt_id_view};
use crate::value::{ID, IdV};

verus! {

/// Operation on a single value.
#[derive(Debug, Clone, Copy, PartialEq, Eq)]
pub enum Unary {
    Negate,
}

/// Operation on two values, applied as `left OP right`.
#[derive(Debug, Clone, Copy, PartialEq, Eq)]
pub enum Binary {
    LessThan,
    GreaterThan,
    Add,
    And,
}

/// One step of an expression: push a value (a variable is looked up in
/// the binding) or apply an operation to the stack.
#[derive(Debug)]
pub enum Op {
    Value(ID),
    Unary(Unary),
    Binary(Binary),
}

/// Mathematical view of an [`Op`].
pub enum OpV {
    Value(IdV),
    Unary(Unary),
    Binary(Binary),
}

impl View for Op {
    type V = OpV;

    open spec fn view(&self) -> OpV {
        match self {
            Op::Value(id) => OpV::Value(id@),
            Op::Unary(u) => OpV::Unary(*u),
            Op::Binary(b) => OpV::Binary(*b),
        }
    }
}

/// Ordered operations of one expression.
#[derive(Debug)]
pub struct Expression {
    pub ops: Vec<Op>,
}

/// Mathematical view of an [`Expression`].
pub struct ExpressionV {
    pub ops: Seq<OpV>,
}

impl View for Expression {
    type V = ExpressionV;

    open spec fn view(&self) -> ExpressionV {
        ExpressionV { ops: self.ops@.map_values(|op: Op| op@) }
    }
}

impl Clone for Op {
    /// Deep copy; the view is preserved.
    fn clone(&self) -> (r: Op)
        ensures
            r@ == self@,
    {
        match self {
            Op::Value(id) => Op::Value(id.clone()),
            Op::Unary(u) => Op::Unary(*u),
            Op::Binary(b) => Op::Binary(*b),
        }
    }
}

impl Clone for Expression {
    /// Deep copy; the view is preserved.
    fn clone(&self) -> (r: Expression)
        ensures
            r@ == self@,
    {
        let mut ops: Vec<Op> = Vec::new();
        let mut i: usize = 0;
        while i < self.ops.len()
            invariant
                i <= self.ops.len(),
                ops@.len() == i,
                forall|j: int| 0 <= j < i ==> (#[trigger] ops@[j])@ == self.ops@[j]@,
            decreases self.ops.len() - i,
        {
            ops.push(self.ops[i].clone());
            i = i + 1;
        }
        let out = Expression { ops };
        proof {
            assert(out@.ops =~= self@.ops);
        }
        out
    }
}

/// Two's-complement wrap-around negation of a 64-bit integer.
pub open spec fn neg_wrap(i: i64) -> i64 {
    if i == i64::MIN {
        i64::MIN
    } else {
        (-i) as i64
    }
}

/// Two's-complement wrap-around addition of two 64-bit integers.
pub open spec fn add_wrap(i: i64, j: i64) -> i64 {
    if i + j > i64::MAX {
        (i + j - 0x1_0000_0000_0000_0000) as i64
    } else if i + j < i64::MIN {
        (i + j + 0x1_0000_0000_0000_0000) as i64
    } else {
        (i + j) as i64
    }
}

/// Result of a unary operation: arithmetic negation of an integer,
/// logical negation of a boolean; anything else fails.
pub open spec fn unary_spec(op: Unary, v: IdV) -> Option<IdV> {
    match (op, v) {
        (Unary::Negate, IdV::Integer(i)) => Some(IdV::Integer(neg_wrap(i))),
        (Unary::Negate, IdV::Bool(b)) => Some(IdV::Bool(!b)),
        _ => None,
    }
}

/// Result of a binary operation on `left OP right`; a type mismatch
/// fails.
pub open spec fn binary_spec(op: Binary, left: IdV, right: IdV) -> Option<IdV> {
    match (op, left, right) {
        (Binary::LessThan, IdV::Integer(i), IdV::Integer(j)) => Some(IdV::Bool(i < j)),
        (Binary::GreaterThan, IdV::Integer(i), IdV::Integer(j)) => Some(IdV::Bool(i > j)),
        (Binary::Add, IdV::Integer(i), IdV::Integer(j)) => Some(IdV::Integer(add_wrap(i, j))),
        (Binary::And, IdV::Bool(i), IdV::Bool(j)) => Some(IdV::Bool(i && j)),
        _ => None,
    }
}

/// One step of the stack machine: the stack after the operation, or
/// `None` on failure. A binary operation pops `right` then `left`.
pub open spec fn step_op(env: Seq<(u32, IdV)>, op: OpV, stack: Seq<IdV>) -> Option<Seq<IdV>> {
    match op {
        OpV::Value(v) => match v {
            IdV::Variable(i) => match env_get(env, i) {
                Some(w) => Some(stack.push(w)),
                None => None,
            },
            _ => Some(stack.push(v)),
        },
        OpV::Unary(u) => if stack.len() < 1 {
            None
        } else {
            match unary_spec(u, stack.last()) {
                Some(res) => Some(stack.drop_last().push(res)),
                None => None,
            }
        },
        OpV::Binary(b) => if stack.len() < 2 {
            None
        } else {
            match binary_spec(b, stack[stack.len() - 2], stack.last()) {
                Some(res) => Some(stack.drop_last().drop_last().push(res)),
                None => None,
            }
        },
    }
}

/// Runs the remaining operations on the given stack.
pub open spec fn run_ops(env: Seq<(u32, IdV)>, ops: Seq<OpV>, stack: Seq<IdV>) -> Option<
    Seq<IdV>,
>
    decreases ops.len(),
{
    if ops.len() == 0 {
        Some(stack)
    } else {
        match step_op(env, ops[0], stack) {
            Some(st) => run_ops(env, ops.drop_first(), st),
            None => None,
        }
    }
}

/// The value of an expression under a binding: the machine must end
/// with exactly one value on the stack.
pub open spec fn eval_spec(e: ExpressionV, env: Seq<(u32, IdV)>) -> Option<IdV> {
    match run_ops(env, e.ops, Seq::empty()) {
        Some(st) => if st.len() == 1 {
            Some(st[0])
        } else {
            None
        },
        None => None,
    }
}

/// Whether the expression evaluates to the boolean true under the
/// binding; this is how a rule filter uses it.
pub open spec fn expr_true(e: ExpressionV, env: Seq<(u32, IdV)>) -> bool {
    eval_spec(e, env) == Some(IdV::Bool(true))
}

impl Unary {
    /// Applies the unary operation, per [`unary_spec`].
    fn evaluate(&self, value: ID) -> (r: Option<ID>)
        ensures
            opt_id_view(r) == unary_spec(*self, value@),
    {
        match (self, value) {
            (Unary::Negate, ID::Integer(i)) => {
                if i == i64::MIN {
                    Some(ID::Integer(i64::MIN))
                } else {
                    Some(ID::Integer(-i))
                }
            },
            (Unary::Negate, ID::Bool(b)) => Some(ID::Bool(!b)),
            _ => None,
        }
    }
}

impl Binary {
    /// Applies the binary operation to `left OP right`, per
    /// [`binary_spec`].
    fn evaluate(&self, left: ID, right: ID) -> (r: Option<ID>)
        ensures
            opt_id_view(r) == binary_spec(*self, left@, right@),
    {
        match (self, left, right) {
            (Binary::LessThan, ID::Integer(i), ID::Integer(j)) => Some(ID::Bool(i < j)),
            (Binary::GreaterThan, ID::Integer(i), ID::Integer(j)) => Some(ID::Bool(i > j)),
            (Binary::Add, ID::Integer(i), ID::Integer(j)) => Some(
                ID::Integer(i.wrapping_add(j)),
            ),
            (Binary::And, ID::Bool(i), ID::Bool(j)) => Some(ID::Bool(i && j)),
            _ => None,
        }
    }
}

impl Expression {
    /// Evaluates the expression against a complete binding, per
    /// [`eval_spec`]: the resulting value, or `None` on an unbound
    /// variable, a stack underflow, leftover residue, or a type
    /// mismatch.
    pub fn evaluate(&self, values: &Binding) -> (r: Option<ID>)
        ensures
            opt_id_view(r) == eval_spec(self@, values@),
    {
        let mut stack: Vec<ID> = Vec::new();
        let n = self.ops.len();
        let mut i: usize = 0;
        proof {
            assert(self@.ops.skip(0) =~= self@.ops);
            assert(stack@.map_values(|x: ID| x@) =~= Seq::<IdV>::empty());
        }
        while i < n
            invariant
                n == self.ops.len(),
                i <= n,
                run_ops(values@, self@.ops, Seq::empty()) == run_ops(
                    values@,
                    self@.ops.skip(i as int),
                    stack@.map_values(|x: ID| x@),
                ),
            decreases n - i,
        {
            let ghost ops_rest = self@.ops.skip(i as int);
            let ghost stack0 = stack@.map_values(|x: ID| x@);
            proof {
                assert(ops_rest[0] == self@.ops[i as int]);
                assert(self@.ops[i as int] == self.ops@[i as int]@);
                assert(ops_rest.drop_first() =~= self@.ops.skip(i as int + 1));
            }
            match &self.ops[i] {
                Op::Value(id) => match id {
                    ID::Variable(v) => match values.get(*v) {
                        Some(found) => {
                            stack.push(found.clone());
                            proof {
                                assert(stack@.map_values(|x: ID| x@) =~= stack0.push(
                                    env_get(values@, *v).unwrap(),
                                ));
                            }
                        },
                        None => {
                            return None;
                        },
                    },
                    _ => {
                        stack.push(id.clone());
                        proof {
                            assert(stack@.map_values(|x: ID| x@) =~= stack0.push(id@));
                        }
                    },
                },
                Op::Unary(unary) => {
                    let popped = stack.pop();
                    match popped {
                        None => {
                            return None;
                        },
                        Some(id) => match unary.evaluate(id) {
                            Some(res) => {
                                stack.push(res);
                                proof {
                                    assert(stack0.drop_last() =~= stack@.map_values(
                                        |x: ID| x@,
                                    ).drop_last());
                                    assert(stack@.map_values(|x: ID| x@) =~= stack0.drop_last()
                                        .push(unary_spec(*unary, stack0.last()).unwrap()));
                                }
                            },
                            None => {
                                return None;
                            },
                        },
                    }
                },
                Op::Binary(binary) => {
                    let right = stack.pop();
                    let left = stack.pop();
                    match (left, right) {
                        (Some(left_id), Some(right_id)) => {
                            proof {
                                assert(left_id@ == stack0[stack0.len() - 2]);
                                assert(right_id@ == stack0.last());
                            }
                            match binary.evaluate(left_id, right_id) {
                                Some(res) => {
                                    stack.push(res);
                                    proof {
                                        assert(stack@.map_values(|x: ID| x@) =~= stack0
                                            .drop_last().drop_last().push(
                                            binary_spec(
                                                *binary,
                                                stack0[stack0.len() - 2],
                                                stack0.last(),
                                            ).unwrap(),
                                        ));
                                    }
                                },
                                None => {
                                    return None;
                                },
                            }
                        },
                        _ => {
                            return None;
                        },
                    }
                },
            }
            i = i + 1;
        }
        proof {
            assert(self@.ops.skip(n as int) =~= Seq::<OpV>::empty());
        }
        if stack.len() == 1 {
            let ghost full = stack@.map_values(|x: ID| x@);
            proof {
                assert(full.len() == 1);
            }
            let out = stack.pop();
            match out {
                Some(id) => {
                    proof {
                        assert(id@ == full[0]);
                    }
                    Some(id)
                },
                None => None,
            }
        } else {
            None
        }
    }
}

} // verus!
