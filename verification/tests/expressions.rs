use predicate_improv::ExprError;
use predicate_improv::LogicExpr;
use predicate_improv::PredicateDomain;
use predicate_improv::PredicateSignature;
use predicate_improv::Symbol;
use predicate_improv::TypeName;
use predicate_improv::TypedSymbol;

fn sym(s: &str) -> Symbol {
    Symbol(String::from(s))
}

fn ty(s: &str) -> TypeName {
    TypeName(String::from(s))
}

fn tsym(name: &str, t: &str) -> TypedSymbol {
    TypedSymbol { name: sym(name), ty: ty(t) }
}

fn on(a: &str, b: &str) -> LogicExpr {
    LogicExpr::Predicate(PredicateSignature::new(sym("on"), 2), vec![sym(a), sym(b)])
}

fn blocks_domain() -> PredicateDomain {
    let mut d = PredicateDomain::new();
    d.define_type(ty("block"), vec![]).unwrap();
    d.define_predicate(
        PredicateSignature::new(sym("on"), 2),
        vec![tsym("x", "block"), tsym("y", "block")],
    )
    .unwrap();
    d.define_constant(sym("a"), ty("block")).unwrap();
    d.define_constant(sym("b"), ty("block")).unwrap();
    d
}

fn bindings(pairs: &[(&str, &str)]) -> Vec<(Symbol, Symbol)> {
    pairs.iter().map(|(k, v)| (sym(k), sym(v))).collect()
}

#[test]
fn substitute_distributes_over_and() {
    let m = bindings(&[("x", "a"), ("y", "b")]);
    let compound = LogicExpr::And(Box::new(on("x", "y")), Box::new(on("y", "x")));
    let expected = LogicExpr::And(
        Box::new(on("x", "y").substitute(&m)),
        Box::new(on("y", "x").substitute(&m)),
    );
    assert_eq!(compound.substitute(&m), expected);
}

#[test]
fn substitute_distributes_over_or_and_not() {
    let m = bindings(&[("x", "a")]);
    let disj = LogicExpr::Or(Box::new(on("x", "y")), Box::new(LogicExpr::True));
    assert_eq!(
        disj.substitute(&m),
        LogicExpr::Or(Box::new(on("a", "y")), Box::new(LogicExpr::True))
    );
    let neg = LogicExpr::Not(Box::new(on("x", "x")));
    assert_eq!(neg.substitute(&m), LogicExpr::Not(Box::new(on("a", "a"))));
}

#[test]
fn substitute_replaces_only_bound_symbols() {
    let m = bindings(&[("x", "a")]);
    assert_eq!(on("x", "y").substitute(&m), on("a", "y"));
    assert_eq!(on("z", "z").substitute(&m), on("z", "z"));
    assert_eq!(LogicExpr::True.substitute(&m), LogicExpr::True);
}

#[test]
fn substitute_last_binding_wins() {
    let m = bindings(&[("x", "a"), ("x", "b")]);
    assert_eq!(on("x", "x").substitute(&m), on("b", "b"));
}

#[test]
fn validate_accepts_constants_and_bound_names() {
    let d = blocks_domain();
    assert!(on("a", "b").validate(&d, &vec![]).is_ok());
    assert!(on("x", "b").validate(&d, &vec![sym("x")]).is_ok());
    assert!(LogicExpr::True.validate(&d, &vec![]).is_ok());
}

#[test]
fn validate_rejects_undeclared_argument() {
    let d = blocks_domain();
    let r = on("a", "c").validate(&d, &vec![]);
    assert!(matches!(r, Err(ExprError::UnboundVariable(s)) if s == sym("c")));
}

#[test]
fn validate_rejects_unknown_predicate() {
    let d = blocks_domain();
    let e = LogicExpr::Predicate(PredicateSignature::new(sym("under"), 2), vec![sym("a"), sym("b")]);
    let r = e.validate(&d, &vec![]);
    assert!(matches!(r, Err(ExprError::UnknownPredicate(f)) if f == sym("under")));
    // a known function symbol under the wrong arity is just as unknown
    let e2 = LogicExpr::Predicate(PredicateSignature::new(sym("on"), 1), vec![sym("a")]);
    let r2 = e2.validate(&d, &vec![]);
    assert!(matches!(r2, Err(ExprError::UnknownPredicate(f)) if f == sym("on")));
}

#[test]
fn validate_rejects_argument_count_mismatch() {
    let d = blocks_domain();
    let e = LogicExpr::Predicate(PredicateSignature::new(sym("on"), 2), vec![sym("a")]);
    assert!(matches!(e.validate(&d, &vec![]), Err(ExprError::ArityMismatch)));
}

#[test]
fn validate_reports_first_failure_of_traversal() {
    let d = blocks_domain();
    let e = LogicExpr::And(Box::new(on("q", "a")), Box::new(on("a", "r")));
    let r = e.validate(&d, &vec![]);
    assert!(matches!(r, Err(ExprError::UnboundVariable(s)) if s == sym("q")));
}

#[test]
fn validate_descends_through_connectives() {
    let d = blocks_domain();
    let e = LogicExpr::Not(Box::new(LogicExpr::Or(
        Box::new(LogicExpr::True),
        Box::new(on("a", "z")),
    )));
    let r = e.validate(&d, &vec![]);
    assert!(matches!(r, Err(ExprError::UnboundVariable(s)) if s == sym("z")));
}

#[test]
fn grounded_expression_validates_with_empty_scope() {
    let d = blocks_domain();
    let params = vec![sym("x"), sym("y")];
    let e = LogicExpr::And(Box::new(on("x", "y")), Box::new(on("y", "a")));
    assert!(e.validate(&d, &params).is_ok());
    let grounding = bindings(&[("x", "a"), ("y", "b")]);
    let grounded = e.substitute(&grounding);
    assert!(grounded.validate(&d, &vec![]).is_ok());
    assert_eq!(
        grounded,
        LogicExpr::And(Box::new(on("a", "b")), Box::new(on("b", "a")))
    );
}

#[test]
fn validate_reports_first_unresolved_argument() {
    let mut d = PredicateDomain::new();
    d.define_type(ty("block"), vec![]).unwrap();
    d.define_predicate(
        PredicateSignature::new(sym("among"), 3),
        vec![tsym("x", "block"), tsym("y", "block"), tsym("z", "block")],
    )
    .unwrap();
    d.define_constant(sym("a"), ty("block")).unwrap();
    let e = LogicExpr::Predicate(
        PredicateSignature::new(sym("among"), 3),
        vec![sym("a"), sym("p"), sym("q")],
    );
    let r = e.validate(&d, &vec![]);
    assert!(matches!(r, Err(ExprError::UnboundVariable(s)) if s == sym("p")));
}

#[test]
fn substitute_reaches_deeply_nested_leaves() {
    let m = bindings(&[("x", "a")]);
    let deep = LogicExpr::Not(Box::new(LogicExpr::And(
        Box::new(LogicExpr::Or(Box::new(on("x", "x")), Box::new(LogicExpr::True))),
        Box::new(LogicExpr::Not(Box::new(on("y", "x")))),
    )));
    let expected = LogicExpr::Not(Box::new(LogicExpr::And(
        Box::new(LogicExpr::Or(Box::new(on("a", "a")), Box::new(LogicExpr::True))),
        Box::new(LogicExpr::Not(Box::new(on("y", "a")))),
    )));
    assert_eq!(deep.substitute(&m), expected);
}
