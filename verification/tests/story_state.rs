use predicate_improv::DomainError;
use predicate_improv::LogicExpr;
use predicate_improv::PredicateDomain;
use predicate_improv::PredicateProblem;
use predicate_improv::PredicateSignature;
use predicate_improv::StoryState;
use predicate_improv::Symbol;
use predicate_improv::TypeName;
use predicate_improv::TypedSymbol;

fn sym(s: &str) -> Symbol {
    Symbol(String::from(s))
}

fn ty(s: &str) -> TypeName {
    TypeName(String::from(s))
}

fn tsym(name: &str, t: &str) -> TypedSymbol {
    TypedSymbol { name: sym(name), ty: ty(t) }
}

fn on(a: &str, b: &str) -> LogicExpr {
    LogicExpr::Predicate(PredicateSignature::new(sym("on"), 2), vec![sym(a), sym(b)])
}

fn blocks_domain() -> PredicateDomain {
    let mut d = PredicateDomain::new();
    d.define_type(ty("block"), vec![]).unwrap();
    d.define_predicate(
        PredicateSignature::new(sym("on"), 2),
        vec![tsym("x", "block"), tsym("y", "block")],
    )
    .unwrap();
    d.define_constant(sym("a"), ty("block")).unwrap();
    d.define_constant(sym("b"), ty("block")).unwrap();
    d
}

#[test]
fn atoms_are_sequential_and_stable() {
    let mut st = StoryState::new();
    let a = st.get_or_insert_atom(&sym("a"), &ty("block"));
    let b = st.get_or_insert_atom(&sym("b"), &ty("block"));
    assert_ne!(a, b);
    // a second reference hands back the same handle and adds nothing
    let a2 = st.get_or_insert_atom(&sym("a"), &ty("block"));
    assert_eq!(a, a2);
    assert_eq!(st.atoms.len(), 2);
    assert_eq!(st.get_atom(&sym("a")), Some(a));
    assert_eq!(st.get_atom(&sym("b")), Some(b));
    assert_eq!(st.get_atom(&sym("c")), None);
}

#[test]
fn atom_names_read_back() {
    let mut st = StoryState::new();
    let a = st.get_or_insert_atom(&sym("a"), &ty("block"));
    assert_eq!(st.get_atom_name(a), Some("a"));
}

#[test]
fn evaluate_respects_argument_order() {
    let mut st = StoryState::new();
    let a = st.get_or_insert_atom(&sym("a"), &ty("block"));
    let b = st.get_or_insert_atom(&sym("b"), &ty("block"));
    st.bind_predicate(PredicateSignature::new(sym("on"), 2), vec![a, b]);
    assert!(on("a", "b").evaluate(&st));
    assert!(!on("b", "a").evaluate(&st));
}

#[test]
fn evaluate_is_closed_world() {
    let mut st = StoryState::new();
    let a = st.get_or_insert_atom(&sym("a"), &ty("block"));
    st.bind_predicate(PredicateSignature::new(sym("on"), 2), vec![a, a]);
    // an unbound signature is false
    let held = LogicExpr::Predicate(PredicateSignature::new(sym("held"), 1), vec![sym("a")]);
    assert!(!held.evaluate(&st));
    // an unresolvable argument makes the predicate false, never an error
    assert!(!on("a", "ghostly").evaluate(&st));
    assert!(on("a", "a").evaluate(&st));
}

#[test]
fn evaluate_connectives() {
    let mut st = StoryState::new();
    let a = st.get_or_insert_atom(&sym("a"), &ty("block"));
    let b = st.get_or_insert_atom(&sym("b"), &ty("block"));
    st.bind_predicate(PredicateSignature::new(sym("on"), 2), vec![a, b]);
    assert!(LogicExpr::True.evaluate(&st));
    assert!(!LogicExpr::Not(Box::new(LogicExpr::True)).evaluate(&st));
    let both = LogicExpr::And(Box::new(on("a", "b")), Box::new(on("b", "a")));
    assert!(!both.evaluate(&st));
    let either = LogicExpr::Or(Box::new(on("a", "b")), Box::new(on("b", "a")));
    assert!(either.evaluate(&st));
}

#[test]
fn rebinding_replaces_the_tuple() {
    let mut st = StoryState::new();
    let a = st.get_or_insert_atom(&sym("a"), &ty("block"));
    let b = st.get_or_insert_atom(&sym("b"), &ty("block"));
    st.bind_predicate(PredicateSignature::new(sym("on"), 2), vec![a, b]);
    st.bind_predicate(PredicateSignature::new(sym("on"), 2), vec![b, a]);
    assert_eq!(st.bound_predicates.len(), 1);
    assert!(!on("a", "b").evaluate(&st));
    assert!(on("b", "a").evaluate(&st));
}

#[test]
fn problem_add_object_checks_type() {
    let d = blocks_domain();
    let mut p = PredicateProblem::new();
    assert!(p.add_object(&d, sym("c"), ty("block")).is_ok());
    assert_eq!(p.objects.len(), 1);
    let r = p.add_object(&d, sym("d"), ty("slab"));
    assert!(matches!(r, Err(DomainError::UnknownType(t)) if t == ty("slab")));
    assert_eq!(p.objects.len(), 1);
}

#[test]
fn problem_bind_predicate_validates_and_binds() {
    let d = blocks_domain();
    let mut p = PredicateProblem::new();
    p.add_object(&d, sym("c"), ty("block")).unwrap();
    // object names and constants both resolve
    assert!(p
        .bind_predicate(&d, PredicateSignature::new(sym("on"), 2), vec![sym("c"), sym("a")])
        .is_ok());
    assert_eq!(p.initial_state.bound_predicates.len(), 1);
    assert_eq!(
        p.initial_state.bound_predicates[0].1,
        vec![sym("c"), sym("a")]
    );
}

#[test]
fn problem_bind_predicate_rejects_unknown_signature() {
    let d = blocks_domain();
    let mut p = PredicateProblem::new();
    let r = p.bind_predicate(&d, PredicateSignature::new(sym("under"), 2), vec![sym("a"), sym("b")]);
    assert!(matches!(r, Err(DomainError::UnknownPredicate(f)) if f == sym("under")));
}

#[test]
fn problem_bind_predicate_rejects_arity_mismatch() {
    let d = blocks_domain();
    let mut p = PredicateProblem::new();
    let r = p.bind_predicate(&d, PredicateSignature::new(sym("on"), 2), vec![sym("a")]);
    assert!(matches!(r, Err(DomainError::ArityMismatch)));
}

#[test]
fn problem_bind_predicate_rejects_unbound_argument() {
    let d = blocks_domain();
    let mut p = PredicateProblem::new();
    let r = p.bind_predicate(&d, PredicateSignature::new(sym("on"), 2), vec![sym("a"), sym("z")]);
    assert!(matches!(r, Err(DomainError::UnboundVariable(s)) if s == sym("z")));
    assert!(p.initial_state.bound_predicates.is_empty());
}

#[test]
fn problem_rebind_replaces_entry() {
    let d = blocks_domain();
    let mut p = PredicateProblem::new();
    p.bind_predicate(&d, PredicateSignature::new(sym("on"), 2), vec![sym("a"), sym("b")])
        .unwrap();
    p.bind_predicate(&d, PredicateSignature::new(sym("on"), 2), vec![sym("b"), sym("a")])
        .unwrap();
    assert_eq!(p.initial_state.bound_predicates.len(), 1);
    assert_eq!(
        p.initial_state.bound_predicates[0].1,
        vec![sym("b"), sym("a")]
    );
}

#[test]
fn atom_handles_are_meaningless_in_other_states() {
    let mut st1 = StoryState::new();
    st1.get_or_insert_atom(&sym("a"), &ty("block"));
    let b = st1.get_or_insert_atom(&sym("b"), &ty("block"));
    let st2 = StoryState::new();
    assert_eq!(st2.get_atom_name(b), None);
    assert_eq!(st1.get_atom_name(b), Some("b"));
}
