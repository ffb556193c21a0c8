use predicate_improv::Action;
use predicate_improv::DomainError;
use predicate_improv::LogicExpr;
use predicate_improv::PredicateDomain;
use predicate_improv::PredicateProblem;
use predicate_improv::PredicateSignature;
use predicate_improv::Symbol;
use predicate_improv::TypeName;
use predicate_improv::TypedSymbol;

fn sym(s: &str) -> Symbol {
    Symbol(String::from(s))
}

fn ty(s: &str) -> TypeName {
    TypeName(String::from(s))
}

fn tsym(name: &str, t: &str) -> TypedSymbol {
    TypedSymbol { name: sym(name), ty: ty(t) }
}

fn blocks_domain() -> PredicateDomain {
    let mut d = PredicateDomain::new();
    d.define_type(ty("block"), vec![]).unwrap();
    d.define_predicate(
        PredicateSignature::new(sym("on"), 2),
        vec![tsym("x", "block"), tsym("y", "block")],
    )
    .unwrap();
    d.define_constant(sym("a"), ty("block")).unwrap();
    d.define_constant(sym("b"), ty("block")).unwrap();
    d
}

#[test]
fn define_type_records_supertypes() {
    let mut d = PredicateDomain::new();
    assert!(d.define_type(ty("object"), vec![]).is_ok());
    assert!(d.define_type(ty("block"), vec![ty("object")]).is_ok());
    assert_eq!(d.types.len(), 2);
    assert_eq!(d.types[1].0, ty("block"));
    assert_eq!(d.types[1].1, vec![ty("object")]);
}

#[test]
fn define_type_rejects_duplicate() {
    let mut d = PredicateDomain::new();
    d.define_type(ty("block"), vec![]).unwrap();
    let r = d.define_type(ty("block"), vec![]);
    assert!(matches!(r, Err(DomainError::DuplicateType(t)) if t == ty("block")));
}

#[test]
fn define_type_rejects_forward_reference() {
    let mut d = PredicateDomain::new();
    let r = d.define_type(ty("block"), vec![ty("object")]);
    assert!(matches!(r, Err(DomainError::UnknownSupertype(t)) if t == ty("object")));
    assert!(d.types.is_empty());
}

#[test]
fn define_constant_rejects_duplicate_and_unknown_type() {
    let mut d = PredicateDomain::new();
    d.define_type(ty("block"), vec![]).unwrap();
    d.define_constant(sym("a"), ty("block")).unwrap();
    let dup = d.define_constant(sym("a"), ty("block"));
    assert!(matches!(dup, Err(DomainError::DuplicateConstant(s)) if s == sym("a")));
    let unk = d.define_constant(sym("b"), ty("slab"));
    assert!(matches!(unk, Err(DomainError::UnknownType(t)) if t == ty("slab")));
}

#[test]
fn remove_constant_is_unconditional() {
    let mut d = blocks_domain();
    assert_eq!(d.constants.len(), 2);
    d.remove_constant(&sym("a"));
    assert_eq!(d.constants.len(), 1);
    assert_eq!(d.constants[0].0, sym("b"));
    // removing an unknown name changes nothing
    d.remove_constant(&sym("zed"));
    assert_eq!(d.constants.len(), 1);
}

#[test]
fn predicate_parameters_match_arity() {
    let d = blocks_domain();
    for (signature, parameters) in &d.predicates {
        assert_eq!(parameters.len(), signature.arity as usize);
    }
}

#[test]
fn define_predicate_rejects_arity_mismatch() {
    let mut d = PredicateDomain::new();
    d.define_type(ty("block"), vec![]).unwrap();
    let r = d.define_predicate(PredicateSignature::new(sym("on"), 3), vec![tsym("x", "block")]);
    assert!(matches!(r, Err(DomainError::ArityMismatch)));
    assert!(d.predicates.is_empty());
}

#[test]
fn define_predicate_rejects_duplicate_function_symbol() {
    let mut d = blocks_domain();
    // a different arity still clashes: function symbols are globally unique
    let r = d.define_predicate(PredicateSignature::new(sym("on"), 1), vec![tsym("x", "block")]);
    assert!(matches!(r, Err(DomainError::DuplicatePredicate(f)) if f == sym("on")));
}

#[test]
fn define_predicate_rejects_unknown_parameter_type() {
    let mut d = PredicateDomain::new();
    d.define_type(ty("block"), vec![]).unwrap();
    let r = d.define_predicate(
        PredicateSignature::new(sym("in"), 2),
        vec![tsym("x", "block"), tsym("y", "box")],
    );
    assert!(matches!(r, Err(DomainError::UnknownType(t)) if t == ty("box")));
}

#[test]
fn define_action_validates_expressions() {
    let mut d = blocks_domain();
    let pre = LogicExpr::Predicate(
        PredicateSignature::new(sym("on"), 2),
        vec![sym("x"), sym("y")],
    );
    let eff = LogicExpr::Not(Box::new(LogicExpr::Predicate(
        PredicateSignature::new(sym("on"), 2),
        vec![sym("x"), sym("y")],
    )));
    let r = d.define_action(
        sym("unstack"),
        vec![tsym("x", "block"), tsym("y", "block")],
        pre,
        eff,
    );
    assert!(r.is_ok());
    assert_eq!(d.actions.len(), 1);
}

#[test]
fn define_action_rejects_duplicate_name() {
    let mut d = blocks_domain();
    d.define_action(sym("noop"), vec![], LogicExpr::True, LogicExpr::True).unwrap();
    let r = d.define_action(sym("noop"), vec![], LogicExpr::True, LogicExpr::True);
    assert!(matches!(r, Err(DomainError::DuplicateAction(n)) if n == sym("noop")));
}

#[test]
fn define_action_wraps_precondition_error() {
    let mut d = blocks_domain();
    let pre = LogicExpr::Predicate(
        PredicateSignature::new(sym("under"), 2),
        vec![sym("x"), sym("y")],
    );
    let r = d.define_action(sym("bad"), vec![tsym("x", "block"), tsym("y", "block")], pre, LogicExpr::True);
    assert!(matches!(
        r,
        Err(DomainError::InvalidPrecondition(predicate_improv::ExprError::UnknownPredicate(f)))
            if f == sym("under")
    ));
}

#[test]
fn define_action_wraps_effect_error() {
    let mut d = blocks_domain();
    let eff = LogicExpr::Predicate(PredicateSignature::new(sym("on"), 2), vec![sym("x"), sym("q")]);
    let r = d.define_action(sym("bad"), vec![tsym("x", "block")], LogicExpr::True, eff);
    assert!(matches!(
        r,
        Err(DomainError::InvalidEffect(predicate_improv::ExprError::UnboundVariable(s)))
            if s == sym("q")
    ));
}

#[test]
fn ground_substitutes_parameters_for_arguments() {
    let pre = LogicExpr::Predicate(
        PredicateSignature::new(sym("on"), 2),
        vec![sym("x"), sym("y")],
    );
    let eff = LogicExpr::Not(Box::new(pre.clone()));
    let action = Action {
        parameters: vec![tsym("x", "block"), tsym("y", "block")],
        precondition: pre,
        effect: eff,
    };
    let (gpre, geff) = action.ground(&vec![sym("a"), sym("b")]).unwrap();
    let expected = LogicExpr::Predicate(
        PredicateSignature::new(sym("on"), 2),
        vec![sym("a"), sym("b")],
    );
    assert_eq!(gpre, expected);
    assert_eq!(geff, LogicExpr::Not(Box::new(expected)));
}

#[test]
fn ground_rejects_arity_mismatch() {
    let action = Action {
        parameters: vec![tsym("x", "block"), tsym("y", "block")],
        precondition: LogicExpr::True,
        effect: LogicExpr::True,
    };
    let r = action.ground(&vec![sym("a")]);
    assert!(matches!(r, Err(DomainError::ArityMismatch)));
}

#[test]
fn readding_identical_type_restores_registry() {
    let mut d = PredicateDomain::new();
    d.define_type(ty("object"), vec![]).unwrap();
    d.define_type(ty("block"), vec![ty("object")]).unwrap();
    let before = d.types.clone();
    let problem = PredicateProblem::new();
    d.remove_type(&ty("block"), &problem).unwrap();
    assert_eq!(d.types.len(), 1);
    d.define_type(ty("block"), vec![ty("object")]).unwrap();
    assert_eq!(d.types, before);
}

#[test]
fn readding_identical_predicate_restores_registry() {
    let mut d = blocks_domain();
    let before = d.predicates.clone();
    let problem = PredicateProblem::new();
    d.remove_predicate(&PredicateSignature::new(sym("on"), 2), &problem).unwrap();
    assert!(d.predicates.is_empty());
    d.define_predicate(
        PredicateSignature::new(sym("on"), 2),
        vec![tsym("x", "block"), tsym("y", "block")],
    )
    .unwrap();
    assert_eq!(d.predicates, before);
}

#[test]
fn readding_identical_action_restores_registry() {
    let mut d = blocks_domain();
    d.define_action(sym("noop"), vec![], LogicExpr::True, LogicExpr::True).unwrap();
    let before = d.actions.clone();
    d.remove_action(&sym("noop"));
    assert!(d.actions.is_empty());
    d.define_action(sym("noop"), vec![], LogicExpr::True, LogicExpr::True).unwrap();
    assert_eq!(d.actions, before);
}

#[test]
fn remove_type_refuses_while_constant_uses_it() {
    let mut d = blocks_domain();
    let problem = PredicateProblem::new();
    let r = d.remove_type(&ty("block"), &problem);
    assert!(matches!(r, Err(DomainError::TypeInUse(t)) if t == ty("block")));
    assert_eq!(d.types.len(), 1);
}

#[test]
fn remove_type_refuses_while_problem_object_uses_it() {
    let mut d = PredicateDomain::new();
    d.define_type(ty("block"), vec![]).unwrap();
    let mut problem = PredicateProblem::new();
    problem.add_object(&d, sym("a"), ty("block")).unwrap();
    let r = d.remove_type(&ty("block"), &problem);
    assert!(matches!(r, Err(DomainError::TypeInUse(t)) if t == ty("block")));
}

#[test]
fn remove_type_succeeds_when_unused() {
    let mut d = PredicateDomain::new();
    d.define_type(ty("block"), vec![]).unwrap();
    let problem = PredicateProblem::new();
    assert!(d.remove_type(&ty("block"), &problem).is_ok());
    assert!(d.types.is_empty());
}

#[test]
fn remove_predicate_refuses_while_action_references_it() {
    let mut d = blocks_domain();
    let pre = LogicExpr::Predicate(
        PredicateSignature::new(sym("on"), 2),
        vec![sym("x"), sym("y")],
    );
    d.define_action(sym("check"), vec![tsym("x", "block"), tsym("y", "block")], pre, LogicExpr::True)
        .unwrap();
    let before = d.predicates.clone();
    let problem = PredicateProblem::new();
    let r = d.remove_predicate(&PredicateSignature::new(sym("on"), 2), &problem);
    assert!(matches!(r, Err(DomainError::PredicateInUse(f)) if f == sym("on")));
    assert_eq!(d.predicates, before);
}

#[test]
fn remove_predicate_refuses_while_initial_state_references_it() {
    let mut d = blocks_domain();
    let mut problem = PredicateProblem::new();
    problem.add_object(&d, sym("a"), ty("block")).unwrap();
    problem.add_object(&d, sym("b"), ty("block")).unwrap();
    problem
        .bind_predicate(&d, PredicateSignature::new(sym("on"), 2), vec![sym("a"), sym("b")])
        .unwrap();
    let r = d.remove_predicate(&PredicateSignature::new(sym("on"), 2), &problem);
    assert!(matches!(r, Err(DomainError::PredicateInUse(f)) if f == sym("on")));
}

#[test]
fn generate_story_is_not_implemented() {
    let d = blocks_domain();
    assert!(d.generate_story().is_none());
}

#[test]
fn define_type_reports_first_undeclared_supertype() {
    let mut d = PredicateDomain::new();
    d.define_type(ty("object"), vec![]).unwrap();
    let r = d.define_type(ty("block"), vec![ty("object"), ty("mist"), ty("vapour")]);
    assert!(matches!(r, Err(DomainError::UnknownSupertype(t)) if t == ty("mist")));
}

#[test]
fn define_predicate_reports_first_undeclared_parameter_type() {
    let mut d = PredicateDomain::new();
    d.define_type(ty("block"), vec![]).unwrap();
    let r = d.define_predicate(
        PredicateSignature::new(sym("among"), 3),
        vec![tsym("x", "block"), tsym("y", "mist"), tsym("z", "vapour")],
    );
    assert!(matches!(r, Err(DomainError::UnknownType(t)) if t == ty("mist")));
}
