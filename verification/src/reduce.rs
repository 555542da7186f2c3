//! The infix-to-postfix reducer: the shunting-yard algorithm specialised to
//! the fixed grammar. All three binary connectives share one precedence
//! class and associate to the left, so a binary operator pops every operator
//! above the nearest opening mark; `!` and `(` are pushed directly; `)` pops
//! operators until it consumes its matching `(`.

use vstd::prelude::*;

use crate::grammar::binary_op_char;
use crate::grammar::is_binary_op;
use crate::grammar::is_letter;
use crate::grammar::is_space;
use crate::grammar::letter_char;
use crate::grammar::space_char;

verus! {

/// A fault found while reducing an infix expression.
#[derive(Clone, Copy, Debug, PartialEq, Eq, Structural)]
pub enum SyntaxError {
    /// A closing mark appeared while no opening mark was on the stack.
    UnterminatedParenthesis,
    /// A character outside the fixed grammar.
    UnexpectedSymbol(char),
}

/// The operator stack drained in pop order: last pushed, first out.
pub open spec fn drained(stack: Seq<char>) -> Seq<char>
    decreases stack.len(),
{
    if stack.len() == 0 {
        Seq::empty()
    } else {
        seq![stack.last()] + drained(stack.drop_last())
    }
}

/// A token sequence with the grouping marks removed. The reducer applies
/// this to its finished output as a defensive step: a well-formed input
/// leaves no mark behind.
pub open spec fn strip_marks(s: Seq<char>) -> Seq<char>
    decreases s.len(),
{
    if s.len() == 0 {
        Seq::empty()
    } else if s[0] == '(' || s[0] == ')' {
        strip_marks(s.drop_first())
    } else {
        seq![s[0]] + strip_marks(s.drop_first())
    }
}

/// The stack and output after a binary operator pops the stack: every
/// operator above the nearest opening mark moves to the output.
pub open spec fn pop_ops(stack: Seq<char>, out: Seq<char>) -> (Seq<char>, Seq<char>)
    decreases stack.len(),
{
    if stack.len() == 0 || stack.last() == '(' {
        (stack, out)
    } else {
        pop_ops(stack.drop_last(), out.push(stack.last()))
    }
}

/// The stack and output after a closing mark pops the stack: operators move
/// to the output until the matching opening mark is found and discarded;
/// `None` when the stack empties first.
pub open spec fn pop_group(stack: Seq<char>, out: Seq<char>) -> Option<(Seq<char>, Seq<char>)>
    decreases stack.len(),
{
    if stack.len() == 0 {
        None
    } else if stack.last() == '(' {
        Some((stack.drop_last(), out))
    } else {
        pop_group(stack.drop_last(), out.push(stack.last()))
    }
}

/// The reduction, one input character per step; at the end of the input the
/// remaining operators drain to the output in pop order and grouping marks
/// are stripped.
pub open spec fn reduce_rec(rest: Seq<char>, stack: Seq<char>, out: Seq<char>) -> Result<
    Seq<char>,
    SyntaxError,
>
    decreases rest.len(),
{
    if rest.len() == 0 {
        Ok(strip_marks(out + drained(stack)))
    } else {
        let c = rest[0];
        if is_space(c) {
            reduce_rec(rest.drop_first(), stack, out)
        } else if is_binary_op(c) {
            let popped = pop_ops(stack, out);
            reduce_rec(rest.drop_first(), popped.0.push(c), popped.1)
        } else if c == '!' || c == '(' {
            reduce_rec(rest.drop_first(), stack.push(c), out)
        } else if c == ')' {
            match pop_group(stack, out) {
                None => Err(SyntaxError::UnterminatedParenthesis),
                Some(popped) => reduce_rec(rest.drop_first(), popped.0, popped.1),
            }
        } else if is_letter(c) {
            reduce_rec(rest.drop_first(), stack, out.push(c))
        } else {
            Err(SyntaxError::UnexpectedSymbol(c))
        }
    }
}

/// What `shunting_yard` returns for a whole input line.
pub open spec fn spec_reduce(input: Seq<char>) -> Result<Seq<char>, SyntaxError> {
    reduce_rec(input, Seq::empty(), Seq::empty())
}

/// Reduce an infix expression to its postfix (Reverse Polish) token
/// sequence. Whitespace is skipped, never a token boundary requirement; an
/// empty input yields an empty sequence; a closing mark with no opening mark
/// on the stack, or a character outside the grammar, is a syntax error.
pub fn shunting_yard(line: &str) -> (r: Result<Vec<char>, SyntaxError>)
    ensures
        (match r {
            Ok(tokens) => spec_reduce(line@) == Ok::<Seq<char>, SyntaxError>(tokens@),
            Err(e) => spec_reduce(line@) == Err::<Seq<char>, SyntaxError>(e),
        }),
{
    let n = line.unicode_len();
    let mut stack: Vec<char> = Vec::new();
    let mut out: Vec<char> = Vec::new();
    let mut i: usize = 0;
    proof {
        assert(line@.skip(0) =~= line@);
    }
    while i < n
        invariant
            n == line@.len(),
            i <= n,
            reduce_rec(line@.skip(i as int), stack@, out@) == spec_reduce(line@),
        decreases n - i,
    {
        let c = line.get_char(i);
        proof {
            assert(line@.skip(i as int)[0] == c);
            assert(line@.skip(i as int).drop_first() =~= line@.skip(i as int + 1));
        }
        if space_char(c) {
        } else if binary_op_char(c) {
            let ghost stack0 = stack@;
            let ghost out0 = out@;
            while stack.len() > 0 && stack[stack.len() - 1] != '('
                invariant
                    pop_ops(stack0, out0) == pop_ops(stack@, out@),
                decreases stack.len(),
            {
                let ghost prev_stack = stack@;
                let ghost prev_out = out@;
                let top = stack.pop().unwrap();
                out.push(top);
                proof {
                    assert(stack@ =~= prev_stack.drop_last());
                    assert(pop_ops(prev_stack, prev_out) == pop_ops(stack@, out@));
                }
            }
            proof {
                assert(pop_ops(stack0, out0) == (stack@, out@));
            }
            stack.push(c);
        } else if c == '!' || c == '(' {
            stack.push(c);
        } else if c == ')' {
            let ghost stack0 = stack@;
            let ghost out0 = out@;
            while stack.len() > 0 && stack[stack.len() - 1] != '('
                invariant
                    pop_group(stack0, out0) == pop_group(stack@, out@),
                decreases stack.len(),
            {
                let ghost prev_stack = stack@;
                let ghost prev_out = out@;
                let top = stack.pop().unwrap();
                out.push(top);
                proof {
                    assert(stack@ =~= prev_stack.drop_last());
                    assert(pop_group(prev_stack, prev_out) == pop_group(stack@, out@));
                }
            }
            if stack.len() == 0 {
                proof {
                    assert(pop_group(stack0, out0) is None);
                }
                return Err(SyntaxError::UnterminatedParenthesis);
            }
            proof {
                assert(pop_group(stack0, out0) == Some((stack@.drop_last(), out@)));
            }
            let _open = stack.pop().unwrap();
        } else if letter_char(c) {
            out.push(c);
        } else {
            return Err(SyntaxError::UnexpectedSymbol(c));
        }
        i += 1;
    }
    proof {
        assert(line@.skip(n as int) =~= Seq::<char>::empty());
    }
    let ghost stack1 = stack@;
    let ghost out1 = out@;
    while stack.len() > 0
        invariant
            out@ + drained(stack@) == out1 + drained(stack1),
        decreases stack.len(),
    {
        let ghost prev_stack = stack@;
        let ghost prev_out = out@;
        let top = stack.pop().unwrap();
        out.push(top);
        proof {
            assert(stack@ =~= prev_stack.drop_last());
            assert(drained(prev_stack) == seq![prev_stack.last()] + drained(prev_stack.drop_last()));
            assert(out@ + drained(stack@) =~= prev_out + drained(prev_stack));
        }
    }
    proof {
        assert(out@ + drained(stack@) =~= out@);
        assert(out@ == out1 + drained(stack1));
    }
    let ghost whole = out@;
    let mut tokens: Vec<char> = Vec::new();
    let mut j: usize = 0;
    proof {
        assert(whole.skip(0) =~= whole);
        assert(Seq::<char>::empty() + strip_marks(whole) =~= strip_marks(whole));
    }
    while j < out.len()
        invariant
            j <= out@.len(),
            out@ == whole,
            tokens@ + strip_marks(whole.skip(j as int)) == strip_marks(whole),
        decreases out@.len() - j,
    {
        let c2 = out[j];
        proof {
            assert(whole.skip(j as int)[0] == c2);
            assert(whole.skip(j as int).drop_first() =~= whole.skip(j as int + 1));
        }
        if c2 != '(' && c2 != ')' {
            let ghost prev_tokens = tokens@;
            tokens.push(c2);
            proof {
                assert(strip_marks(whole.skip(j as int)) == seq![c2] + strip_marks(
                    whole.skip(j as int + 1),
                ));
                assert(tokens@ + strip_marks(whole.skip(j as int + 1)) =~= prev_tokens
                    + strip_marks(whole.skip(j as int)));
            }
        }
        j += 1;
    }
    proof {
        assert(whole.skip(whole.len() as int) =~= Seq::<char>::empty());
        assert(tokens@ + strip_marks(Seq::<char>::empty()) =~= tokens@);
        assert(tokens@ == strip_marks(whole));
    }
    Ok(tokens)
}

} // verus!
