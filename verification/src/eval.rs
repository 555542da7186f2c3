//! The postfix evaluator: a postfix token sequence is consumed left to
//! right against a boolean value stack. An identifier pushes its bound
//! value; `!` pops one operand; a binary connective pops two, the more
//! recently pushed one being its right operand. A well-formed sequence
//! leaves exactly one value, the result.

use vstd::prelude::*;

use crate::bindings::Bindings;
use crate::grammar::binary_op_char;
use crate::grammar::is_binary_op;

verus! {

/// A fault found while evaluating a postfix sequence.
#[derive(Clone, Copy, Debug, PartialEq, Eq, Structural)]
pub enum EvalError {
    /// An operator was applied with too few values on the stack.
    MissingOperand,
    /// An identifier token has no entry in the binding table.
    UnknownVariable(char),
    /// Zero or several values were left once the sequence was consumed.
    MalformedExpression,
}

/// What a binary connective computes: `a & b`, `a | b`, or material
/// implication `a > b`, which is false exactly when `a` holds and `b` does
/// not.
pub open spec fn apply_binary(c: char, a: bool, b: bool) -> bool {
    if c == '&' {
        a && b
    } else if c == '|' {
        a || b
    } else {
        !(a && !b)
    }
}

/// The evaluation, one token per step over the value stack; at the end of
/// the sequence exactly one value must remain.
pub open spec fn eval_rec(rest: Seq<char>, vars: Map<char, bool>, stack: Seq<bool>) -> Result<
    bool,
    EvalError,
>
    decreases rest.len(),
{
    if rest.len() == 0 {
        if stack.len() == 1 {
            Ok(stack[0])
        } else {
            Err(EvalError::MalformedExpression)
        }
    } else {
        let c = rest[0];
        if c == '!' {
            if stack.len() == 0 {
                Err(EvalError::MissingOperand)
            } else {
                eval_rec(rest.drop_first(), vars, stack.drop_last().push(!stack.last()))
            }
        } else if is_binary_op(c) {
            if stack.len() < 2 {
                Err(EvalError::MissingOperand)
            } else {
                eval_rec(
                    rest.drop_first(),
                    vars,
                    stack.drop_last().drop_last().push(
                        apply_binary(c, stack[stack.len() - 2], stack.last()),
                    ),
                )
            }
        } else if vars.contains_key(c) {
            eval_rec(rest.drop_first(), vars, stack.push(vars[c]))
        } else {
            Err(EvalError::UnknownVariable(c))
        }
    }
}

/// What `eval_postfix` returns for a whole postfix sequence.
pub open spec fn spec_eval(expr: Seq<char>, vars: Map<char, bool>) -> Result<bool, EvalError> {
    eval_rec(expr, vars, Seq::empty())
}

/// Evaluate a postfix token sequence against a variable-binding table.
/// Any token that is not an operator is looked up as an identifier. The
/// result is the single boolean left on the value stack; an empty sequence,
/// or one with excess operands, is malformed.
pub fn eval_postfix(expr: &Vec<char>, vars: &Bindings) -> (r: Result<bool, EvalError>)
    ensures
        (match r {
            Ok(value) => spec_eval(expr@, vars@) == Ok::<bool, EvalError>(value),
            Err(e) => spec_eval(expr@, vars@) == Err::<bool, EvalError>(e),
        }),
{
    let mut stack: Vec<bool> = Vec::new();
    let mut i: usize = 0;
    proof {
        assert(expr@.skip(0) =~= expr@);
    }
    while i < expr.len()
        invariant
            i <= expr@.len(),
            eval_rec(expr@.skip(i as int), vars@, stack@) == spec_eval(expr@, vars@),
        decreases expr@.len() - i,
    {
        let c = expr[i];
        proof {
            assert(expr@.skip(i as int)[0] == c);
            assert(expr@.skip(i as int).drop_first() =~= expr@.skip(i as int + 1));
        }
        if c == '!' {
            if stack.len() == 0 {
                return Err(EvalError::MissingOperand);
            }
            let ghost prev_stack = stack@;
            let a = stack.pop().unwrap();
            stack.push(!a);
            proof {
                assert(stack@ =~= prev_stack.drop_last().push(!prev_stack.last()));
            }
        } else if binary_op_char(c) {
            if stack.len() < 2 {
                return Err(EvalError::MissingOperand);
            }
            let ghost prev_stack = stack@;
            let b = stack.pop().unwrap();
            let a = stack.pop().unwrap();
            let value = if c == '&' {
                a && b
            } else if c == '|' {
                a || b
            } else {
                !(a && !b)
            };
            stack.push(value);
            proof {
                assert(a == prev_stack[prev_stack.len() - 2]);
                assert(b == prev_stack.last());
                assert(stack@ =~= prev_stack.drop_last().drop_last().push(
                    apply_binary(c, prev_stack[prev_stack.len() - 2], prev_stack.last()),
                ));
            }
        } else {
            match vars.get(c) {
                Some(value) => stack.push(value),
                None => {
                    return Err(EvalError::UnknownVariable(c));
                },
            }
        }
        i += 1;
    }
    proof {
        assert(expr@.skip(expr@.len() as int) =~= Seq::<char>::empty());
    }
    if stack.len() == 1 {
        Ok(stack[0])
    } else {
        Err(EvalError::MalformedExpression)
    }
}

} // verus!
