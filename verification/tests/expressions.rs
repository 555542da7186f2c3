use prop_logic::eval_postfix;
use prop_logic::shunting_yard;
use prop_logic::Bindings;
use prop_logic::EvalError;
use prop_logic::SyntaxError;

#[test]
fn test_shunting_yard() {
    assert_eq!(shunting_yard("Q & P").unwrap(), vec!['Q', 'P', '&']);
    assert_eq!(shunting_yard("!Q & P").unwrap(), vec!['Q', '!', 'P', '&']);
    assert_eq!(shunting_yard("Q | P").unwrap(), vec!['Q', 'P', '|']);
    assert_eq!(shunting_yard("!Q & !P").unwrap(), vec!['Q', '!', 'P', '!', '&']);
}

#[test]
fn test_eval() {
    let mut map1 = Bindings::new();
    map1.insert('P', true);
    map1.insert('Q', true);
    let stack1 = shunting_yard("Q & P").unwrap();
    assert_eq!(eval_postfix(&stack1, &map1).unwrap(), true);
    let stack2 = shunting_yard("!Q & !P").unwrap();
    assert_eq!(eval_postfix(&stack2, &map1).unwrap(), false);
    let stack3 = shunting_yard("Q > P").unwrap();
    assert_eq!(eval_postfix(&stack3, &map1).unwrap(), true);
    let stack4 = shunting_yard("Q > !P").unwrap();
    assert_eq!(eval_postfix(&stack4, &map1).unwrap(), false);
}

fn both_true() -> Bindings {
    let mut vars = Bindings::new();
    vars.insert('P', true);
    vars.insert('Q', true);
    vars
}

#[test]
fn negated_conjunction_is_false() {
    let vars = both_true();
    let tokens = shunting_yard("!Q & P").unwrap();
    assert_eq!(tokens, vec!['Q', '!', 'P', '&']);
    assert_eq!(eval_postfix(&tokens, &vars).unwrap(), false);
}

#[test]
fn reduce_is_deterministic() {
    let first = shunting_yard("!(P | Q) & R");
    let second = shunting_yard("!(P | Q) & R");
    assert_eq!(first, second);
}

#[test]
fn whitespace_is_skipped() {
    assert_eq!(shunting_yard("  Q   &P \t"), shunting_yard("Q&P"));
    assert_eq!(shunting_yard("  Q   &P \t").unwrap(), vec!['Q', 'P', '&']);
}

#[test]
fn unicode_whitespace_is_skipped_too() {
    assert_eq!(shunting_yard("Q\u{00a0}").unwrap(), vec!['Q']);
    assert_eq!(
        shunting_yard("Q\u{00a0}&\u{2003}P\u{3000}"),
        shunting_yard("Q&P")
    );
    assert_eq!(
        shunting_yard("\u{2028}!Q\u{205f}&\u{85}!P\u{1680}").unwrap(),
        vec!['Q', '!', 'P', '!', '&']
    );
}

#[test]
fn conjunction_order_does_not_matter() {
    let vars = both_true();
    let one = shunting_yard("Q & P").unwrap();
    let other = shunting_yard("P & Q").unwrap();
    assert_eq!(eval_postfix(&one, &vars).unwrap(), true);
    assert_eq!(eval_postfix(&other, &vars).unwrap(), true);
}

#[test]
fn implication_order_matters() {
    let mut vars = Bindings::new();
    vars.insert('P', false);
    vars.insert('Q', true);
    let forward = shunting_yard("Q > P").unwrap();
    assert_eq!(eval_postfix(&forward, &vars).unwrap(), false);
    let backward = shunting_yard("P > Q").unwrap();
    assert_eq!(eval_postfix(&backward, &vars).unwrap(), true);
}

#[test]
fn true_implies_negated_true_is_false() {
    let vars = both_true();
    let tokens = shunting_yard("Q > !P").unwrap();
    assert_eq!(eval_postfix(&tokens, &vars).unwrap(), false);
}

#[test]
fn empty_input_reduces_to_empty_sequence() {
    assert_eq!(shunting_yard("").unwrap(), Vec::<char>::new());
}

#[test]
fn empty_sequence_is_malformed() {
    let vars = Bindings::new();
    let tokens = shunting_yard("").unwrap();
    assert_eq!(
        eval_postfix(&tokens, &vars),
        Err(EvalError::MalformedExpression)
    );
}

#[test]
fn unmatched_closing_mark_is_unterminated() {
    assert_eq!(
        shunting_yard("P)"),
        Err(SyntaxError::UnterminatedParenthesis)
    );
}

#[test]
fn unexpected_symbol_fails_before_evaluation() {
    assert_eq!(
        shunting_yard("P # Q"),
        Err(SyntaxError::UnexpectedSymbol('#'))
    );
}

#[test]
fn unbound_variable_is_reported() {
    let mut vars = Bindings::new();
    vars.insert('P', true);
    let tokens = shunting_yard("R & P").unwrap();
    assert_eq!(
        eval_postfix(&tokens, &vars),
        Err(EvalError::UnknownVariable('R'))
    );
}

#[test]
fn lone_operator_misses_operands() {
    let vars = both_true();
    assert_eq!(
        eval_postfix(&vec!['&'], &vars),
        Err(EvalError::MissingOperand)
    );
    assert_eq!(
        eval_postfix(&vec!['P', '&'], &vars),
        Err(EvalError::MissingOperand)
    );
    assert_eq!(
        eval_postfix(&vec!['!'], &vars),
        Err(EvalError::MissingOperand)
    );
}

#[test]
fn excess_operands_are_malformed() {
    let vars = both_true();
    let tokens = shunting_yard("P Q").unwrap();
    assert_eq!(tokens, vec!['P', 'Q']);
    assert_eq!(
        eval_postfix(&tokens, &vars),
        Err(EvalError::MalformedExpression)
    );
}

#[test]
fn binary_connectives_associate_left() {
    let tokens = shunting_yard("P & Q | R").unwrap();
    assert_eq!(tokens, vec!['P', 'Q', '&', 'R', '|']);
}

#[test]
fn grouping_changes_the_result() {
    let mut vars = Bindings::new();
    vars.insert('P', true);
    vars.insert('Q', true);
    vars.insert('R', true);
    let tokens = shunting_yard("!(P | Q) & R").unwrap();
    assert_eq!(tokens, vec!['P', 'Q', '|', '!', 'R', '&']);
    assert_eq!(eval_postfix(&tokens, &vars).unwrap(), false);
    let ungrouped = shunting_yard("!P | Q & R").unwrap();
    assert_eq!(eval_postfix(&ungrouped, &vars).unwrap(), true);
}

#[test]
fn unclosed_opening_mark_is_stripped() {
    assert_eq!(shunting_yard("(P").unwrap(), vec!['P']);
}
