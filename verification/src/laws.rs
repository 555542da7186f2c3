//! The general laws of the reducer and the evaluator.
//!
//! `Ast` describes exactly the well-formed infix expressions of the fixed
//! grammar; `render` writes one out as text and `postfix` gives its Reverse
//! Polish form. The theorems at the bottom state that reducing a rendered
//! expression always succeeds with its postfix form, and that evaluating
//! that form under complete bindings always succeeds with its truth value.

use vstd::prelude::*;

use crate::eval::apply_binary;
use crate::eval::eval_rec;
use crate::eval::spec_eval;
use crate::eval::EvalError;
use crate::grammar::is_binary_op;
use crate::grammar::is_letter;
use crate::grammar::is_space;
use crate::grammar::strip_spaces;
use crate::reduce::drained;
use crate::reduce::pop_group;
use crate::reduce::pop_ops;
use crate::reduce::reduce_rec;
use crate::reduce::spec_reduce;
use crate::reduce::strip_marks;
use crate::reduce::SyntaxError;

verus! {

/// A well-formed infix expression of the fixed grammar. `Paren` keeps
/// explicit grouping, so the `render` images of well-formed trees are
/// exactly the well-formed whitespace-free expression strings.
pub enum Ast {
    /// A single-letter variable.
    Ident(char),
    /// `!` applied to a term.
    Not(Box<Ast>),
    /// A parenthesized expression.
    Paren(Box<Ast>),
    /// A binary connective between an expression and a term; the grammar is
    /// left-associative, so only the left operand may itself be ungrouped.
    Bin(char, Box<Ast>, Box<Ast>),
}

/// A term: anything that binds tighter than a binary connective.
pub open spec fn is_term(e: Ast) -> bool {
    !(e is Bin)
}

/// Well-formedness: identifiers are letters, connectives are `&`, `|` or
/// `>`, the operand of `!` and the right operand of a connective are terms.
pub open spec fn wf(e: Ast) -> bool
    decreases e,
{
    match e {
        Ast::Ident(c) => is_letter(c),
        Ast::Not(t) => is_term(*t) && wf(*t),
        Ast::Paren(inner) => wf(*inner),
        Ast::Bin(op, l, r) => is_binary_op(op) && wf(*l) && wf(*r) && is_term(*r),
    }
}

/// The expression written out as infix text, without whitespace.
pub open spec fn render(e: Ast) -> Seq<char>
    decreases e,
{
    match e {
        Ast::Ident(c) => seq![c],
        Ast::Not(t) => seq!['!'] + render(*t),
        Ast::Paren(inner) => seq!['('] + render(*inner) + seq![')'],
        Ast::Bin(op, l, r) => render(*l) + seq![op] + render(*r),
    }
}

/// The expression's postfix (Reverse Polish) token sequence.
pub open spec fn postfix(e: Ast) -> Seq<char>
    decreases e,
{
    match e {
        Ast::Ident(c) => seq![c],
        Ast::Not(t) => postfix(*t) + seq!['!'],
        Ast::Paren(inner) => postfix(*inner),
        Ast::Bin(op, l, r) => postfix(*l) + postfix(*r) + seq![op],
    }
}

/// The identifiers the expression mentions.
pub open spec fn idents(e: Ast) -> Set<char>
    decreases e,
{
    match e {
        Ast::Ident(c) => Set::empty().insert(c),
        Ast::Not(t) => idents(*t),
        Ast::Paren(inner) => idents(*inner),
        Ast::Bin(_, l, r) => idents(*l).union(idents(*r)),
    }
}

/// The expression's truth value under a binding table.
pub open spec fn sem(e: Ast, vars: Map<char, bool>) -> bool
    decreases e,
{
    match e {
        Ast::Ident(c) => vars[c],
        Ast::Not(t) => !sem(*t, vars),
        Ast::Paren(inner) => sem(*inner, vars),
        Ast::Bin(op, l, r) => apply_binary(op, sem(*l, vars), sem(*r, vars)),
    }
}

/// The operators of `e` still sitting on the operator stack right after the
/// last character of `render(e)` has been scanned, topmost last.
pub open spec fn pending(e: Ast) -> Seq<char>
    decreases e,
{
    match e {
        Ast::Ident(_) => Seq::empty(),
        Ast::Not(t) => seq!['!'] + pending(*t),
        Ast::Paren(_) => Seq::empty(),
        Ast::Bin(op, _, r) => seq![op] + pending(*r),
    }
}

/// The tokens of `e` already written to the output right after the last
/// character of `render(e)` has been scanned.
pub open spec fn emitted(e: Ast) -> Seq<char>
    decreases e,
{
    match e {
        Ast::Ident(c) => seq![c],
        Ast::Not(t) => emitted(*t),
        Ast::Paren(inner) => postfix(*inner),
        Ast::Bin(_, l, r) => postfix(*l) + emitted(*r),
    }
}

/// No character of `p` is an opening mark.
pub open spec fn no_open(p: Seq<char>) -> bool {
    forall|k: int| 0 <= k < p.len() ==> (#[trigger] p[k]) != '('
}

proof fn lemma_drained_prepend(x: char, s: Seq<char>)
    ensures
        drained(seq![x] + s) == drained(s) + seq![x],
    decreases s.len(),
{
    if s.len() == 0 {
        assert(seq![x] + s =~= seq![x]);
        assert(seq![x].drop_last() =~= Seq::<char>::empty());
        assert(drained(Seq::<char>::empty()) == Seq::<char>::empty());
        assert(drained(seq![x]) == seq![x] + drained(seq![x].drop_last()));
        assert(drained(seq![x] + s) =~= drained(s) + seq![x]);
    } else {
        let s2 = seq![x] + s;
        assert(s2.last() == s.last());
        assert(s2.drop_last() =~= seq![x] + s.drop_last());
        lemma_drained_prepend(x, s.drop_last());
        assert(drained(s2) == seq![s2.last()] + drained(s2.drop_last()));
        assert(drained(s) == seq![s.last()] + drained(s.drop_last()));
        assert(drained(s2) =~= drained(s) + seq![x]);
    }
}

proof fn lemma_pop_ops_blocked(stack: Seq<char>, p: Seq<char>, out: Seq<char>)
    requires
        stack.len() == 0 || stack.last() == '(',
        no_open(p),
    ensures
        pop_ops(stack + p, out) == (stack, out + drained(p)),
    decreases p.len(),
{
    if p.len() == 0 {
        assert(stack + p =~= stack);
        assert(out + drained(p) =~= out);
    } else {
        let sp = stack + p;
        assert(p[p.len() - 1] != '(');
        assert(sp.last() == p.last());
        assert(sp.drop_last() =~= stack + p.drop_last());
        assert(forall|k: int|
            0 <= k < p.drop_last().len() ==> (#[trigger] p.drop_last()[k]) == p[k]);
        lemma_pop_ops_blocked(stack, p.drop_last(), out.push(p.last()));
        assert(drained(p) == seq![p.last()] + drained(p.drop_last()));
        assert(out + drained(p) =~= out.push(p.last()) + drained(p.drop_last()));
    }
}

proof fn lemma_pop_group_through(stack: Seq<char>, p: Seq<char>, out: Seq<char>)
    requires
        no_open(p),
    ensures
        pop_group(stack + seq!['('] + p, out) == Some((stack, out + drained(p))),
    decreases p.len(),
{
    if p.len() == 0 {
        let sp = stack + seq!['('] + p;
        assert(sp =~= stack + seq!['(']);
        assert(sp.last() == '(');
        assert(sp.drop_last() =~= stack);
        assert(out + drained(p) =~= out);
    } else {
        let sp = stack + seq!['('] + p;
        assert(p[p.len() - 1] != '(');
        assert(sp.last() == p.last());
        assert(sp.drop_last() =~= stack + seq!['('] + p.drop_last());
        assert(forall|k: int|
            0 <= k < p.drop_last().len() ==> (#[trigger] p.drop_last()[k]) == p[k]);
        lemma_pop_group_through(stack, p.drop_last(), out.push(p.last()));
        assert(drained(p) == seq![p.last()] + drained(p.drop_last()));
        assert(out + drained(p) =~= out.push(p.last()) + drained(p.drop_last()));
    }
}

proof fn lemma_pending_ops(e: Ast)
    requires
        wf(e),
    ensures
        forall|k: int|
            0 <= k < pending(e).len() ==> ((#[trigger] pending(e)[k]) == '!' || is_binary_op(
                pending(e)[k],
            )),
    decreases e,
{
    match e {
        Ast::Ident(_) => {
            assert(pending(e).len() == 0);
        },
        Ast::Not(t) => {
            lemma_pending_ops(*t);
            assert(pending(e) == seq!['!'] + pending(*t));
            assert forall|k: int|
                0 <= k < pending(e).len() implies (pending(e)[k] == '!' || is_binary_op(
                pending(e)[k],
            )) by {
                if k > 0 {
                    assert(pending(e)[k] == pending(*t)[k - 1]);
                }
            }
        },
        Ast::Paren(_) => {
            assert(pending(e).len() == 0);
        },
        Ast::Bin(op, _, r) => {
            lemma_pending_ops(*r);
            assert(pending(e) == seq![op] + pending(*r));
            assert forall|k: int|
                0 <= k < pending(e).len() implies (pending(e)[k] == '!' || is_binary_op(
                pending(e)[k],
            )) by {
                if k > 0 {
                    assert(pending(e)[k] == pending(*r)[k - 1]);
                }
            }
        },
    }
}

proof fn lemma_postfix_tokens(e: Ast)
    requires
        wf(e),
    ensures
        forall|k: int|
            0 <= k < postfix(e).len() ==> (is_letter(#[trigger] postfix(e)[k]) || postfix(e)[k]
                == '!' || is_binary_op(postfix(e)[k])),
    decreases e,
{
    match e {
        Ast::Ident(c) => {
            assert(postfix(e) == seq![c]);
        },
        Ast::Not(t) => {
            lemma_postfix_tokens(*t);
            assert(postfix(e) == postfix(*t) + seq!['!']);
            assert forall|k: int|
                0 <= k < postfix(e).len() implies (is_letter(postfix(e)[k]) || postfix(e)[k]
                == '!' || is_binary_op(postfix(e)[k])) by {
                if k < postfix(*t).len() {
                    assert(postfix(e)[k] == postfix(*t)[k]);
                } else {
                    assert(postfix(e)[k] == '!');
                }
            }
        },
        Ast::Paren(inner) => {
            lemma_postfix_tokens(*inner);
            assert(postfix(e) == postfix(*inner));
        },
        Ast::Bin(op, l, r) => {
            lemma_postfix_tokens(*l);
            lemma_postfix_tokens(*r);
            assert(postfix(e) == postfix(*l) + postfix(*r) + seq![op]);
            assert forall|k: int|
                0 <= k < postfix(e).len() implies (is_letter(postfix(e)[k]) || postfix(e)[k]
                == '!' || is_binary_op(postfix(e)[k])) by {
                if k < postfix(*l).len() {
                    assert(postfix(e)[k] == postfix(*l)[k]);
                } else if k < postfix(*l).len() + postfix(*r).len() {
                    assert(postfix(e)[k] == postfix(*r)[k - postfix(*l).len()]);
                } else {
                    assert(postfix(e)[k] == op);
                }
            }
        },
    }
}

proof fn lemma_strip_marks_id(s: Seq<char>)
    requires
        forall|k: int| 0 <= k < s.len() ==> (#[trigger] s[k]) != '(' && s[k] != ')',
    ensures
        strip_marks(s) == s,
    decreases s.len(),
{
    if s.len() == 0 {
        assert(strip_marks(s) =~= s);
    } else {
        assert(forall|k: int|
            0 <= k < s.drop_first().len() ==> (#[trigger] s.drop_first()[k]) == s[k + 1]);
        lemma_strip_marks_id(s.drop_first());
        assert(strip_marks(s) =~= s);
    }
}

proof fn lemma_postfix_split(e: Ast)
    requires
        wf(e),
    ensures
        postfix(e) == emitted(e) + drained(pending(e)),
    decreases e,
{
    match e {
        Ast::Ident(_) => {
            assert(postfix(e) =~= emitted(e) + drained(pending(e)));
        },
        Ast::Not(t) => {
            lemma_postfix_split(*t);
            lemma_drained_prepend('!', pending(*t));
            assert(postfix(e) =~= emitted(e) + drained(pending(e)));
        },
        Ast::Paren(_) => {
            assert(postfix(e) =~= emitted(e) + drained(pending(e)));
        },
        Ast::Bin(op, _, r) => {
            lemma_postfix_split(*r);
            lemma_drained_prepend(op, pending(*r));
            assert(postfix(e) =~= emitted(e) + drained(pending(e)));
        },
    }
}

proof fn lemma_reduce_term(t: Ast, rest: Seq<char>, stack: Seq<char>, out: Seq<char>)
    requires
        wf(t),
        is_term(t),
    ensures
        reduce_rec(render(t) + rest, stack, out) == reduce_rec(
            rest,
            stack + pending(t),
            out + emitted(t),
        ),
    decreases t, 0int,
{
    match t {
        Ast::Ident(c) => {
            let input = render(t) + rest;
            assert(input[0] == c);
            assert(input.drop_first() =~= rest);
            assert(stack + pending(t) =~= stack);
            assert(out + emitted(t) =~= out.push(c));
        },
        Ast::Not(inner) => {
            let input = render(t) + rest;
            assert(input[0] == '!');
            assert(input.drop_first() =~= render(*inner) + rest);
            lemma_reduce_term(*inner, rest, stack.push('!'), out);
            assert(stack.push('!') + pending(*inner) =~= stack + pending(t));
        },
        Ast::Paren(inner) => {
            let input = render(t) + rest;
            assert(input[0] == '(');
            assert(input.drop_first() =~= render(*inner) + (seq![')'] + rest));
            lemma_reduce_expr(*inner, seq![')'] + rest, stack.push('('), out);
            let st2 = stack.push('(') + pending(*inner);
            let out2 = out + emitted(*inner);
            assert((seq![')'] + rest)[0] == ')');
            assert((seq![')'] + rest).drop_first() =~= rest);
            lemma_pending_ops(*inner);
            lemma_pop_group_through(stack, pending(*inner), out2);
            assert(st2 =~= stack + seq!['('] + pending(*inner));
            lemma_postfix_split(*inner);
            assert(out2 + drained(pending(*inner)) =~= out + emitted(t));
            assert(stack + pending(t) =~= stack);
        },
        Ast::Bin(_, _, _) => {
            assert(false);
        },
    }
}

proof fn lemma_reduce_expr(e: Ast, rest: Seq<char>, stack: Seq<char>, out: Seq<char>)
    requires
        wf(e),
        stack.len() == 0 || stack.last() == '(',
    ensures
        reduce_rec(render(e) + rest, stack, out) == reduce_rec(
            rest,
            stack + pending(e),
            out + emitted(e),
        ),
    decreases e, 1int,
{
    if is_term(e) {
        lemma_reduce_term(e, rest, stack, out);
    } else {
        match e {
            Ast::Bin(op, l, r) => {
                let rest2 = seq![op] + (render(*r) + rest);
                assert(render(e) + rest =~= render(*l) + rest2);
                lemma_reduce_expr(*l, rest2, stack, out);
                let st2 = stack + pending(*l);
                let out2 = out + emitted(*l);
                assert(rest2[0] == op);
                assert(rest2.drop_first() =~= render(*r) + rest);
                lemma_pending_ops(*l);
                lemma_pop_ops_blocked(stack, pending(*l), out2);
                let out3 = out2 + drained(pending(*l));
                lemma_reduce_term(*r, rest, stack.push(op), out3);
                lemma_postfix_split(*l);
                assert(stack.push(op) + pending(*r) =~= stack + pending(e));
                assert(out3 + emitted(*r) =~= out + emitted(e));
            },
            _ => {
                assert(false);
            },
        }
    }
}

/// LAW. Reducing any well-formed infix expression of the fixed grammar
/// succeeds, and its output is exactly the expression's postfix form.
pub proof fn theorem_reduce_well_formed(e: Ast)
    requires
        wf(e),
    ensures
        spec_reduce(render(e)) == Ok::<Seq<char>, SyntaxError>(postfix(e)),
{
    lemma_reduce_expr(e, Seq::empty(), Seq::empty(), Seq::empty());
    assert(render(e) + Seq::<char>::empty() =~= render(e));
    assert(Seq::<char>::empty() + pending(e) =~= pending(e));
    assert(Seq::<char>::empty() + emitted(e) =~= emitted(e));
    lemma_postfix_split(e);
    lemma_postfix_tokens(e);
    lemma_strip_marks_id(postfix(e));
}

proof fn lemma_eval_append(e: Ast, rest: Seq<char>, vars: Map<char, bool>, stack: Seq<bool>)
    requires
        wf(e),
        forall|c: char| idents(e).contains(c) ==> vars.contains_key(c),
    ensures
        eval_rec(postfix(e) + rest, vars, stack) == eval_rec(
            rest,
            vars,
            stack.push(sem(e, vars)),
        ),
    decreases e,
{
    match e {
        Ast::Ident(c) => {
            let input = postfix(e) + rest;
            assert(idents(e).contains(c));
            assert(input[0] == c);
            assert(input.drop_first() =~= rest);
        },
        Ast::Not(t) => {
            assert(postfix(e) + rest =~= postfix(*t) + (seq!['!'] + rest));
            lemma_eval_append(*t, seq!['!'] + rest, vars, stack);
            let st2 = stack.push(sem(*t, vars));
            assert((seq!['!'] + rest)[0] == '!');
            assert((seq!['!'] + rest).drop_first() =~= rest);
            assert(st2.drop_last() =~= stack);
            assert(st2.drop_last().push(!st2.last()) =~= stack.push(sem(e, vars)));
        },
        Ast::Paren(inner) => {
            lemma_eval_append(*inner, rest, vars, stack);
        },
        Ast::Bin(op, l, r) => {
            assert(postfix(e) + rest =~= postfix(*l) + (postfix(*r) + (seq![op] + rest)));
            assert forall|c: char| idents(*l).contains(c) implies vars.contains_key(c) by {
                assert(idents(e).contains(c));
            }
            assert forall|c: char| idents(*r).contains(c) implies vars.contains_key(c) by {
                assert(idents(e).contains(c));
            }
            lemma_eval_append(*l, postfix(*r) + (seq![op] + rest), vars, stack);
            let st1 = stack.push(sem(*l, vars));
            lemma_eval_append(*r, seq![op] + rest, vars, st1);
            let st2 = st1.push(sem(*r, vars));
            assert((seq![op] + rest)[0] == op);
            assert((seq![op] + rest).drop_first() =~= rest);
            assert(st2[st2.len() - 2] == sem(*l, vars));
            assert(st2.last() == sem(*r, vars));
            assert(st2.drop_last().drop_last().push(
                apply_binary(op, st2[st2.len() - 2], st2.last()),
            ) =~= stack.push(sem(e, vars)));
        },
    }
}

/// LAW. Evaluating the postfix form of a well-formed expression under
/// bindings that cover every identifier it mentions succeeds, and the
/// result is the expression's truth value.
pub proof fn theorem_evaluate_well_formed(e: Ast, vars: Map<char, bool>)
    requires
        wf(e),
        forall|c: char| idents(e).contains(c) ==> vars.contains_key(c),
    ensures
        spec_eval(postfix(e), vars) == Ok::<bool, EvalError>(sem(e, vars)),
{
    lemma_eval_append(e, Seq::empty(), vars, Seq::empty());
    assert(postfix(e) + Seq::<char>::empty() =~= postfix(e));
    assert(Seq::<bool>::empty().push(sem(e, vars)).len() == 1);
}

/// LAW. For every well-formed infix expression of the fixed grammar and
/// every binding table that covers its identifiers, reduction succeeds with
/// the expression's postfix form and evaluation of that form succeeds with
/// the expression's truth value: the pipeline returns `Ok` end to end.
pub proof fn theorem_reduce_then_evaluate(e: Ast, vars: Map<char, bool>)
    requires
        wf(e),
        forall|c: char| idents(e).contains(c) ==> vars.contains_key(c),
    ensures
        spec_reduce(render(e)) == Ok::<Seq<char>, SyntaxError>(postfix(e)),
        spec_eval(postfix(e), vars) == Ok::<bool, EvalError>(sem(e, vars)),
{
    theorem_reduce_well_formed(e);
    theorem_evaluate_well_formed(e, vars);
}

proof fn lemma_strip_marks_clean(s: Seq<char>)
    ensures
        forall|k: int|
            0 <= k < strip_marks(s).len() ==> (#[trigger] strip_marks(s)[k]) != '('
                && strip_marks(s)[k] != ')',
    decreases s.len(),
{
    if s.len() == 0 {
    } else if s[0] == '(' || s[0] == ')' {
        lemma_strip_marks_clean(s.drop_first());
    } else {
        lemma_strip_marks_clean(s.drop_first());
        assert(strip_marks(s) == seq![s[0]] + strip_marks(s.drop_first()));
        assert forall|k: int|
            0 <= k < strip_marks(s).len() implies (strip_marks(s)[k] != '(' && strip_marks(s)[k]
            != ')') by {
            if k > 0 {
                assert(strip_marks(s)[k] == strip_marks(s.drop_first())[k - 1]);
            }
        }
    }
}

proof fn lemma_reduce_rec_clean(rest: Seq<char>, stack: Seq<char>, out: Seq<char>, tokens: Seq<char>)
    requires
        reduce_rec(rest, stack, out) == Ok::<Seq<char>, SyntaxError>(tokens),
    ensures
        forall|k: int| 0 <= k < tokens.len() ==> (#[trigger] tokens[k]) != '(' && tokens[k] != ')',
    decreases rest.len(),
{
    if rest.len() == 0 {
        lemma_strip_marks_clean(out + drained(stack));
    } else {
        let c = rest[0];
        if is_space(c) {
            lemma_reduce_rec_clean(rest.drop_first(), stack, out, tokens);
        } else if is_binary_op(c) {
            let popped = pop_ops(stack, out);
            lemma_reduce_rec_clean(rest.drop_first(), popped.0.push(c), popped.1, tokens);
        } else if c == '!' || c == '(' {
            lemma_reduce_rec_clean(rest.drop_first(), stack.push(c), out, tokens);
        } else if c == ')' {
            match pop_group(stack, out) {
                None => {
                },
                Some(popped) => {
                    lemma_reduce_rec_clean(rest.drop_first(), popped.0, popped.1, tokens);
                },
            }
        } else if is_letter(c) {
            lemma_reduce_rec_clean(rest.drop_first(), stack, out.push(c), tokens);
        } else {
        }
    }
}

/// LAW. The reducer never hands grouping marks on to the evaluator: a
/// successful reduction's token sequence holds identifiers and operators
/// only.
pub proof fn theorem_reduce_no_marks(input: Seq<char>, tokens: Seq<char>)
    requires
        spec_reduce(input) == Ok::<Seq<char>, SyntaxError>(tokens),
    ensures
        forall|k: int| 0 <= k < tokens.len() ==> (#[trigger] tokens[k]) != '(' && tokens[k] != ')',
{
    lemma_reduce_rec_clean(input, Seq::empty(), Seq::empty(), tokens);
}

proof fn lemma_reduce_rec_skips_spaces(rest: Seq<char>, stack: Seq<char>, out: Seq<char>)
    ensures
        reduce_rec(rest, stack, out) == reduce_rec(strip_spaces(rest), stack, out),
    decreases rest.len(),
{
    if rest.len() == 0 {
        assert(strip_spaces(rest) =~= rest);
    } else {
        let c = rest[0];
        if is_space(c) {
            lemma_reduce_rec_skips_spaces(rest.drop_first(), stack, out);
        } else {
            let stripped = strip_spaces(rest);
            assert(stripped == seq![c] + strip_spaces(rest.drop_first()));
            assert(stripped[0] == c);
            assert(stripped.drop_first() =~= strip_spaces(rest.drop_first()));
            if is_binary_op(c) {
                let popped = pop_ops(stack, out);
                lemma_reduce_rec_skips_spaces(rest.drop_first(), popped.0.push(c), popped.1);
            } else if c == '!' || c == '(' {
                lemma_reduce_rec_skips_spaces(rest.drop_first(), stack.push(c), out);
            } else if c == ')' {
                match pop_group(stack, out) {
                    None => {
                    },
                    Some(popped) => {
                        lemma_reduce_rec_skips_spaces(rest.drop_first(), popped.0, popped.1);
                    },
                }
            } else if is_letter(c) {
                lemma_reduce_rec_skips_spaces(rest.drop_first(), stack, out.push(c));
            } else {
            }
        }
    }
}

/// LAW. Whitespace is skipped silently, never a token boundary
/// requirement: a line reduces exactly as its whitespace-free form does.
pub proof fn theorem_reduce_ignores_whitespace(input: Seq<char>)
    ensures
        spec_reduce(input) == spec_reduce(strip_spaces(input)),
{
    lemma_reduce_rec_skips_spaces(input, Seq::empty(), Seq::empty());
}

/// LAW. Reduction is a pure function of the input text alone: on equal
/// inputs its outcome is identical. `shunting_yard`'s contract ties its
/// result to `spec_reduce` of the input, so two runs on one string cannot
/// differ.
pub proof fn theorem_reduce_deterministic(a: Seq<char>, b: Seq<char>)
    requires
        a == b,
    ensures
        spec_reduce(a) == spec_reduce(b),
{
}

/// LAW. A binary connective takes the later-pushed value as its right
/// operand, so `x y op` evaluates to `op(vars[x], vars[y])`; for the
/// commutative connectives `&` and `|` the operand order does not matter,
/// while for `>` it does.
pub proof fn theorem_operand_order(x: char, y: char, op: char, vars: Map<char, bool>)
    requires
        is_letter(x),
        is_letter(y),
        is_binary_op(op),
        vars.contains_key(x),
        vars.contains_key(y),
    ensures
        spec_eval(seq![x, y, op], vars) == Ok::<bool, EvalError>(
            apply_binary(op, vars[x], vars[y]),
        ),
        op == '&' || op == '|' ==> spec_eval(seq![x, y, op], vars) == spec_eval(
            seq![y, x, op],
            vars,
        ),
{
    let ix = Ast::Ident(x);
    let iy = Ast::Ident(y);
    assert(wf(ix) && wf(iy));
    assert(idents(ix) == Set::<char>::empty().insert(x));
    assert(idents(iy) == Set::<char>::empty().insert(y));
    assert(postfix(ix) == seq![x] && postfix(iy) == seq![y]);
    assert(sem(ix, vars) == vars[x] && sem(iy, vars) == vars[y]);
    let e1 = Ast::Bin(op, Box::new(ix), Box::new(iy));
    assert(wf(e1));
    assert(idents(e1) == idents(ix).union(idents(iy)));
    assert forall|c: char| idents(e1).contains(c) implies vars.contains_key(c) by {
        assert(c == x || c == y);
    }
    theorem_evaluate_well_formed(e1, vars);
    assert(postfix(e1) =~= seq![x, y, op]);
    assert(sem(e1, vars) == apply_binary(op, vars[x], vars[y]));
    let e2 = Ast::Bin(op, Box::new(iy), Box::new(ix));
    assert(wf(e2));
    assert(idents(e2) == idents(iy).union(idents(ix)));
    assert forall|c: char| idents(e2).contains(c) implies vars.contains_key(c) by {
        assert(c == x || c == y);
    }
    theorem_evaluate_well_formed(e2, vars);
    assert(postfix(e2) =~= seq![y, x, op]);
    assert(sem(e2, vars) == apply_binary(op, vars[y], vars[x]));
}

} // verus!
