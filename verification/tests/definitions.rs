use prop_logic::parse_definition;
use prop_logic::Bindings;
use prop_logic::DefLine;
use prop_logic::Expr;
use prop_logic::Prop;

#[test]
fn definition_binds_a_variable() {
    assert_eq!(parse_definition("p = true"), DefLine::Bind('p', true));
    assert_eq!(parse_definition("P=false"), DefLine::Bind('P', false));
    assert_eq!(parse_definition(" q =  true "), DefLine::Bind('q', true));
}

#[test]
fn blank_line_ends_the_definitions() {
    assert_eq!(parse_definition(""), DefLine::End);
    assert_eq!(parse_definition("   \t "), DefLine::End);
    assert_eq!(parse_definition("\u{00a0}\u{2002}"), DefLine::End);
}

#[test]
fn unicode_whitespace_is_stripped_from_definitions() {
    assert_eq!(
        parse_definition("p\u{00a0}=\u{3000}true"),
        DefLine::Bind('p', true)
    );
}

#[test]
fn definition_faults_are_told_apart() {
    assert_eq!(parse_definition("p q true"), DefLine::BadSyntax);
    assert_eq!(parse_definition("p=q=true"), DefLine::BadSyntax);
    assert_eq!(parse_definition("=true"), DefLine::NoName);
    assert_eq!(parse_definition("pq=true"), DefLine::LongName);
    assert_eq!(parse_definition("p=maybe"), DefLine::BadValue);
    assert_eq!(parse_definition("p="), DefLine::BadValue);
}

#[test]
fn later_binding_overrides_earlier() {
    let mut vars = Bindings::new();
    vars.insert('p', true);
    vars.insert('p', false);
    assert_eq!(vars.get('p'), Some(false));
    assert_eq!(vars.get('q'), None);
}

#[test]
fn empty_bindings_are_empty() {
    let mut vars = Bindings::new();
    assert!(vars.is_empty());
    vars.insert('a', true);
    assert!(!vars.is_empty());
}

#[test]
fn proposition_renders_with_its_value() {
    let p = Prop::new('P', true);
    assert_eq!(p.name, 'P');
    assert_eq!(p.val, true);
    assert_eq!(p.to_text(), "(P: true)");
    let q = Prop::new('q', false);
    assert_eq!(q.to_text(), "(q: false)");
}

#[test]
fn expression_renders_with_connective_signs() {
    let p = Expr::from_prop(Prop::new('P', true));
    assert_eq!(*p, Expr::Prop(Prop::new('P', true)));
    let q = Expr::from_prop(Prop::new('Q', false));
    let both = Expr::And(p, q);
    assert_eq!(both.to_text(), "((P: true) ∧ (Q: false))");
    let negated = Expr::Not(Box::new(both));
    assert_eq!(
        negated.to_text(),
        "¬((P: true) ∧ (Q: false))"
    );
    let either = Expr::Or(
        Expr::from_prop(Prop::new('a', true)),
        Expr::from_prop(Prop::new('b', false)),
    );
    assert_eq!(either.to_text(), "((a: true) ∨ (b: false))");
    let implies = Expr::Super(
        Expr::from_prop(Prop::new('a', true)),
        Expr::from_prop(Prop::new('b', false)),
    );
    assert_eq!(implies.to_text(), "((a: true) ⊃ (b: false))");
}
