use predicate_improv::CutoutDomain;
use predicate_improv::ExprEdit;
use predicate_improv::LogicExpr;
use predicate_improv::PredicateDomain;
use predicate_improv::PredicateSignature;
use predicate_improv::Symbol;
use predicate_improv::TypeName;

fn sym(s: &str) -> Symbol {
    Symbol(String::from(s))
}

fn ty(s: &str) -> TypeName {
    TypeName(String::from(s))
}

fn on_sig() -> PredicateSignature {
    PredicateSignature::new(sym("on"), 2)
}

#[test]
fn subtype_is_reflexive_for_declared_types() {
    let mut d = PredicateDomain::new();
    d.define_type(ty("object"), vec![]).unwrap();
    d.define_type(ty("block"), vec![ty("object")]).unwrap();
    assert!(d.is_subtype(&ty("object"), &ty("object")));
    assert!(d.is_subtype(&ty("block"), &ty("block")));
}

#[test]
fn subtype_follows_chains_of_supertypes() {
    let mut d = PredicateDomain::new();
    d.define_type(ty("object"), vec![]).unwrap();
    d.define_type(ty("solid"), vec![ty("object")]).unwrap();
    d.define_type(ty("block"), vec![ty("solid")]).unwrap();
    assert!(d.is_subtype(&ty("block"), &ty("object")));
    assert!(d.is_subtype(&ty("solid"), &ty("object")));
    assert!(!d.is_subtype(&ty("object"), &ty("block")));
    assert!(!d.is_subtype(&ty("solid"), &ty("block")));
}

#[test]
fn subtype_handles_multiple_inheritance() {
    let mut d = PredicateDomain::new();
    d.define_type(ty("heavy"), vec![]).unwrap();
    d.define_type(ty("wooden"), vec![]).unwrap();
    d.define_type(ty("crate"), vec![ty("heavy"), ty("wooden")]).unwrap();
    assert!(d.is_subtype(&ty("crate"), &ty("heavy")));
    assert!(d.is_subtype(&ty("crate"), &ty("wooden")));
    assert!(!d.is_subtype(&ty("heavy"), &ty("wooden")));
}

#[test]
fn edit_inserts_connectives_into_placeholders() {
    let root = LogicExpr::True;
    let e1 = root.apply_edit(&vec![], &ExprEdit::InsertAnd).unwrap();
    assert_eq!(
        e1,
        LogicExpr::And(Box::new(LogicExpr::True), Box::new(LogicExpr::True))
    );
    let e2 = e1.apply_edit(&vec![0], &ExprEdit::InsertNot).unwrap();
    assert_eq!(
        e2,
        LogicExpr::And(
            Box::new(LogicExpr::Not(Box::new(LogicExpr::True))),
            Box::new(LogicExpr::True)
        )
    );
    // the edited tree is a rebuild; the original is untouched
    assert_eq!(root, LogicExpr::True);
}

#[test]
fn edit_makes_predicate_with_empty_argument_slots() {
    let made = LogicExpr::True
        .apply_edit(&vec![], &ExprEdit::MakePredicate(on_sig()))
        .unwrap();
    assert_eq!(made, LogicExpr::Predicate(on_sig(), vec![sym(""), sym("")]));
}

#[test]
fn edit_sets_signature_and_arguments_in_place() {
    let e = LogicExpr::Predicate(on_sig(), vec![sym("a"), sym("b")]);
    let swapped = e
        .apply_edit(&vec![], &ExprEdit::SetSignature(PredicateSignature::new(sym("under"), 2)))
        .unwrap();
    assert_eq!(
        swapped,
        LogicExpr::Predicate(PredicateSignature::new(sym("under"), 2), vec![sym("a"), sym("b")])
    );
    let renamed = e.apply_edit(&vec![], &ExprEdit::SetArgument(1, sym("c"))).unwrap();
    assert_eq!(renamed, LogicExpr::Predicate(on_sig(), vec![sym("a"), sym("c")]));
    assert!(e.apply_edit(&vec![], &ExprEdit::SetArgument(2, sym("c"))).is_none());
}

#[test]
fn edit_unwraps_and_converts_connectives() {
    let l = LogicExpr::Predicate(on_sig(), vec![sym("a"), sym("b")]);
    let r = LogicExpr::Predicate(on_sig(), vec![sym("b"), sym("a")]);
    let conj = LogicExpr::And(Box::new(l.clone()), Box::new(r.clone()));
    assert_eq!(
        conj.apply_edit(&vec![], &ExprEdit::ConvertToOr).unwrap(),
        LogicExpr::Or(Box::new(l.clone()), Box::new(r.clone()))
    );
    assert_eq!(conj.apply_edit(&vec![], &ExprEdit::UnwrapLeft).unwrap(), l);
    assert_eq!(conj.apply_edit(&vec![], &ExprEdit::UnwrapRight).unwrap(), r);
    let neg = LogicExpr::Not(Box::new(l.clone()));
    assert_eq!(neg.apply_edit(&vec![], &ExprEdit::UnwrapNot).unwrap(), l);
    assert_eq!(neg.apply_edit(&vec![], &ExprEdit::Delete).unwrap(), LogicExpr::True);
}

#[test]
fn edit_addresses_deep_positions() {
    let leaf = LogicExpr::Predicate(on_sig(), vec![sym("a"), sym("b")]);
    let tree = LogicExpr::And(
        Box::new(LogicExpr::Not(Box::new(leaf.clone()))),
        Box::new(LogicExpr::True),
    );
    let edited = tree.apply_edit(&vec![0, 0], &ExprEdit::Delete).unwrap();
    assert_eq!(
        edited,
        LogicExpr::And(
            Box::new(LogicExpr::Not(Box::new(LogicExpr::True))),
            Box::new(LogicExpr::True)
        )
    );
}

#[test]
fn edit_rejects_paths_and_shapes_that_do_not_fit() {
    let leaf = LogicExpr::Predicate(on_sig(), vec![sym("a"), sym("b")]);
    assert!(leaf.apply_edit(&vec![0], &ExprEdit::Delete).is_none());
    assert!(leaf.apply_edit(&vec![], &ExprEdit::UnwrapNot).is_none());
    assert!(LogicExpr::True.apply_edit(&vec![], &ExprEdit::ConvertToOr).is_none());
    let neg = LogicExpr::Not(Box::new(LogicExpr::True));
    assert!(neg.apply_edit(&vec![1], &ExprEdit::Delete).is_none());
}

#[test]
fn cutout_story_draws_from_the_event_list() {
    let domain = CutoutDomain { events: vec![String::from("The hero waits.")], story_length: 3 };
    let story = domain.generate_story().unwrap();
    assert_eq!(story.0, "The hero waits.\nThe hero waits.\nThe hero waits.\n");
}

#[test]
fn cutout_story_of_length_zero_is_empty() {
    let domain = CutoutDomain { events: vec![], story_length: 0 };
    let story = domain.generate_story().unwrap();
    assert_eq!(story.0, "");
}

#[test]
fn cutout_story_lines_come_from_events() {
    let domain = CutoutDomain {
        events: vec![String::from("alpha"), String::from("beta")],
        story_length: 8,
    };
    let story = domain.generate_story().unwrap();
    let lines: Vec<&str> = story.0.lines().collect();
    assert_eq!(lines.len(), 8);
    for line in lines {
        assert!(line == "alpha" || line == "beta");
    }
}

#[test]
fn symbols_compare_by_text() {
    assert_eq!(sym("a"), Symbol::from_str("a"));
    assert_ne!(sym("a"), sym("b"));
    assert_eq!(ty("block"), TypeName::from_str("block"));
    let s1 = on_sig();
    let s2 = PredicateSignature::new(sym("on"), 2);
    assert_eq!(s1, s2);
    assert_ne!(s1, PredicateSignature::new(sym("on"), 3));
}
