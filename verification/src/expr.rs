use vstd::prelude::*;

use crate::assoc::assoc_map;
use crate::assoc::lemma_assoc_map_absent;
use crate::assoc::lemma_assoc_map_last_index;
use crate::domain::PredicateDomain;
use crate::domain::PredicateModel;
use crate::symbols::PredicateSignature;
use crate::symbols::SignatureModel;
use crate::symbols::Symbol;
use crate::symbols::name_set;
use crate::symbols::seq_has_name;

verus! {

/// A boolean formula over predicate applications. `True` is the empty,
/// always-satisfied formula, which also serves as the deleted or placeholder
/// state of a tree position. Each compound node exclusively owns its
/// children: a formula is a finite tree, never a graph.
#[derive(Debug, PartialEq, Eq)]
pub enum LogicExpr {
    /// Always true.
    True,
    /// The named predicate applied to argument symbols (variables or
    /// constants).
    Predicate(PredicateSignature, Vec<Symbol>),
    /// Negation of the sub-formula.
    Not(Box<LogicExpr>),
    /// Conjunction.
    And(Box<LogicExpr>, Box<LogicExpr>),
    /// Disjunction.
    Or(Box<LogicExpr>, Box<LogicExpr>),
}

/// The mathematical shape of a logic expression: the same tree with every
/// symbol read as its character sequence.
pub enum ExprModel {
    True,
    Predicate(SignatureModel, Seq<Seq<char>>),
    Not(Box<ExprModel>),
    And(Box<ExprModel>, Box<ExprModel>),
    Or(Box<ExprModel>, Box<ExprModel>),
}

/// Reads an expression tree as its model.
pub open spec fn expr_model(e: LogicExpr) -> ExprModel
    decreases e,
{
    match e {
        LogicExpr::True => ExprModel::True,
        LogicExpr::Predicate(sig, args) => ExprModel::Predicate(
            sig@,
            args@.map_values(|s: Symbol| s@),
        ),
        LogicExpr::Not(x) => ExprModel::Not(Box::new(expr_model(*x))),
        LogicExpr::And(l, r) => ExprModel::And(Box::new(expr_model(*l)), Box::new(expr_model(*r))),
        LogicExpr::Or(l, r) => ExprModel::Or(Box::new(expr_model(*l)), Box::new(expr_model(*r))),
    }
}

impl View for LogicExpr {
    type V = ExprModel;

    open spec fn view(&self) -> ExprModel {
        expr_model(*self)
    }
}

impl Clone for LogicExpr {
    fn clone(&self) -> (r: Self)
        ensures
            r@ == self@,
        decreases *self,
    {
        match self {
            LogicExpr::True => LogicExpr::True,
            LogicExpr::Predicate(sig, args) => {
                let new_args = args.clone();
                proof {
                    assert(new_args@ =~= args@);
                }
                LogicExpr::Predicate(sig.clone(), new_args)
            },
            LogicExpr::Not(x) => LogicExpr::Not(Box::new((**x).clone())),
            LogicExpr::And(l, r) => LogicExpr::And(
                Box::new((**l).clone()),
                Box::new((**r).clone()),
            ),
            LogicExpr::Or(l, r) => LogicExpr::Or(Box::new((**l).clone()), Box::new((**r).clone())),
        }
    }
}

/// The mathematical shape of an expression error.
pub enum ErrorModel {
    UnknownPredicate(Seq<char>),
    ArityMismatch,
    UnboundVariable(Seq<char>),
}

/// Why an expression is ill-formed with respect to a domain: a predicate
/// application whose signature is not registered, an argument list whose
/// length differs from the signature's arity, or an argument symbol that is
/// neither in scope nor a registered constant.
#[derive(Debug, PartialEq, Eq)]
pub enum ExprError {
    UnknownPredicate(Symbol),
    ArityMismatch,
    UnboundVariable(Symbol),
}

impl View for ExprError {
    type V = ErrorModel;

    open spec fn view(&self) -> ErrorModel {
        match *self {
            ExprError::UnknownPredicate(ref s) => ErrorModel::UnknownPredicate(s@),
            ExprError::ArityMismatch => ErrorModel::ArityMismatch,
            ExprError::UnboundVariable(ref s) => ErrorModel::UnboundVariable(s@),
        }
    }
}

/// The mapping denoted by a list of name-to-name bindings; a later entry for
/// a name overwrites an earlier one.
pub open spec fn bindings_map(s: Seq<(Symbol, Symbol)>) -> Map<Seq<char>, Seq<char>> {
    assoc_map(s.map_values(|p: (Symbol, Symbol)| (p.0@, p.1@)))
}

/// What one argument symbol becomes under a substitution: its mapped value
/// where the mapping binds it, the symbol itself otherwise.
pub open spec fn subst_arg(a: Seq<char>, m: Map<Seq<char>, Seq<char>>) -> Seq<char> {
    if m.contains_key(a) {
        m[a]
    } else {
        a
    }
}

/// Pointwise substitution over an argument list.
pub open spec fn subst_args(args: Seq<Seq<char>>, m: Map<Seq<char>, Seq<char>>) -> Seq<Seq<char>> {
    args.map_values(|a: Seq<char>| subst_arg(a, m))
}

/// Substitution over a whole expression: every free argument symbol bound by
/// the mapping is replaced by its mapped value, all structure is kept.
pub open spec fn subst_model(e: ExprModel, m: Map<Seq<char>, Seq<char>>) -> ExprModel
    decreases e,
{
    match e {
        ExprModel::True => ExprModel::True,
        ExprModel::Predicate(sig, args) => ExprModel::Predicate(sig, subst_args(args, m)),
        ExprModel::Not(x) => ExprModel::Not(Box::new(subst_model(*x, m))),
        ExprModel::And(l, r) => ExprModel::And(
            Box::new(subst_model(*l, m)),
            Box::new(subst_model(*r, m)),
        ),
        ExprModel::Or(l, r) => ExprModel::Or(
            Box::new(subst_model(*l, m)),
            Box::new(subst_model(*r, m)),
        ),
    }
}

/// Looks a name up in a binding list; the last entry for the name wins.
fn lookup_binding<'a>(bindings: &'a Vec<(Symbol, Symbol)>, name: &Symbol) -> (r: Option<&'a Symbol>)
    ensures
        match r {
            Some(v) => bindings_map(bindings@).contains_key(name@) && v@ == bindings_map(
                bindings@,
            )[name@],
            None => !bindings_map(bindings@).contains_key(name@),
        },
{
    let ghost pairs = bindings@.map_values(|p: (Symbol, Symbol)| (p.0@, p.1@));
    let mut i: usize = bindings.len();
    while i > 0
        invariant
            i <= bindings.len(),
            pairs == bindings@.map_values(|p: (Symbol, Symbol)| (p.0@, p.1@)),
            forall|j: int| i <= j < bindings.len() ==> (#[trigger] pairs[j]).0 != name@,
        decreases i,
    {
        i = i - 1;
        if bindings[i].0.0 == name.0 {
            proof {
                lemma_assoc_map_last_index(pairs, i as int);
            }
            return Some(&bindings[i].1);
        }
    }
    proof {
        lemma_assoc_map_absent(pairs, name@);
    }
    None
}

impl LogicExpr {
    /// Builds a new tree in which every argument symbol bound by `bindings`
    /// is replaced by its mapped value; symbols absent from the bindings pass
    /// through unchanged. Used when grounding an action's precondition and
    /// effect against concrete call arguments.
    pub fn substitute(&self, bindings: &Vec<(Symbol, Symbol)>) -> (r: LogicExpr)
        ensures
            r@ == subst_model(self@, bindings_map(bindings@)),
        decreases *self,
    {
        let ghost m = bindings_map(bindings@);
        match self {
            LogicExpr::True => LogicExpr::True,
            LogicExpr::Predicate(sig, args) => {
                let mut new_args: Vec<Symbol> = Vec::new();
                let mut i: usize = 0;
                while i < args.len()
                    invariant
                        i <= args.len(),
                        m == bindings_map(bindings@),
                        new_args@.len() == i,
                        forall|j: int|
                            0 <= j < i ==> (#[trigger] new_args@[j])@ == subst_arg(args@[j]@, m),
                    decreases args.len() - i,
                {
                    let replaced = match lookup_binding(bindings, &args[i]) {
                        Some(v) => v.clone(),
                        None => args[i].clone(),
                    };
                    new_args.push(replaced);
                    i = i + 1;
                }
                proof {
                    assert(new_args@.map_values(|s: Symbol| s@) =~= subst_args(
                        args@.map_values(|s: Symbol| s@),
                        m,
                    ));
                }
                LogicExpr::Predicate(sig.clone(), new_args)
            },
            LogicExpr::Not(x) => LogicExpr::Not(Box::new(x.substitute(bindings))),
            LogicExpr::And(l, r) => LogicExpr::And(
                Box::new(l.substitute(bindings)),
                Box::new(r.substitute(bindings)),
            ),
            LogicExpr::Or(l, r) => LogicExpr::Or(
                Box::new(l.substitute(bindings)),
                Box::new(r.substitute(bindings)),
            ),
        }
    }
}

/// The first argument symbol that neither the bound names nor the constants
/// resolve, if any.
pub open spec fn first_unresolved(
    args: Seq<Seq<char>>,
    consts: Set<Seq<char>>,
    bound: Set<Seq<char>>,
) -> Option<Seq<char>>
    decreases args.len(),
{
    if args.len() == 0 {
        None
    } else if !(bound.contains(args[0]) || consts.contains(args[0])) {
        Some(args[0])
    } else {
        first_unresolved(args.drop_first(), consts, bound)
    }
}

/// No argument is unresolved exactly when every argument resolves.
pub proof fn lemma_first_unresolved_none(
    args: Seq<Seq<char>>,
    consts: Set<Seq<char>>,
    bound: Set<Seq<char>>,
)
    ensures
        (first_unresolved(args, consts, bound) is None) <==> (forall|i: int|
            0 <= i < args.len() ==> bound.contains(#[trigger] args[i]) || consts.contains(args[i])),
    decreases args.len(),
{
    if args.len() > 0 {
        lemma_first_unresolved_none(args.drop_first(), consts, bound);
        if bound.contains(args[0]) || consts.contains(args[0]) {
            if first_unresolved(args, consts, bound) is None {
                assert forall|i: int| 0 <= i < args.len() implies bound.contains(#[trigger] args[i])
                    || consts.contains(args[i]) by {
                    if i > 0 {
                        assert(args.drop_first()[i - 1] == args[i]);
                    }
                }
            } else {
                let i = choose|i: int|
                    0 <= i < args.drop_first().len() && !(bound.contains(
                        #[trigger] args.drop_first()[i],
                    ) || consts.contains(args.drop_first()[i]));
                assert(args[i + 1] == args.drop_first()[i]);
            }
        }
    }
}

/// The first unresolved argument is the one at the first failing position.
pub proof fn lemma_first_unresolved_at(
    args: Seq<Seq<char>>,
    consts: Set<Seq<char>>,
    bound: Set<Seq<char>>,
    i: int,
)
    requires
        0 <= i < args.len(),
        forall|j: int|
            0 <= j < i ==> bound.contains(#[trigger] args[j]) || consts.contains(args[j]),
        !(bound.contains(args[i]) || consts.contains(args[i])),
    ensures
        first_unresolved(args, consts, bound) == Some(args[i]),
    decreases i,
{
    if i > 0 {
        assert forall|j: int| 0 <= j < i - 1 implies bound.contains(
            #[trigger] args.drop_first()[j],
        ) || consts.contains(args.drop_first()[j]) by {
            assert(args.drop_first()[j] == args[j + 1]);
        }
        assert(args.drop_first()[i - 1] == args[i]);
        lemma_first_unresolved_at(args.drop_first(), consts, bound, i - 1);
    }
}

/// Whether a predicate application's signature is registered: its function
/// symbol is a key and the registered arity is the application's arity.
pub open spec fn sig_defined(sig: SignatureModel, preds: Map<Seq<char>, PredicateModel>) -> bool {
    preds.contains_key(sig.function) && preds[sig.function].arity == sig.arity
}

/// The validation verdict on an expression, error by error: the first
/// failure of a left-to-right traversal, or success.
pub open spec fn validate_model(
    e: ExprModel,
    preds: Map<Seq<char>, PredicateModel>,
    consts: Set<Seq<char>>,
    bound: Set<Seq<char>>,
) -> Result<(), ErrorModel>
    decreases e,
{
    match e {
        ExprModel::True => Ok(()),
        ExprModel::Predicate(sig, args) => if !sig_defined(sig, preds) {
            Err(ErrorModel::UnknownPredicate(sig.function))
        } else if args.len() != sig.arity {
            Err(ErrorModel::ArityMismatch)
        } else {
            match first_unresolved(args, consts, bound) {
                Some(a) => Err(ErrorModel::UnboundVariable(a)),
                None => Ok(()),
            }
        },
        ExprModel::Not(x) => validate_model(*x, preds, consts, bound),
        ExprModel::And(l, r) => match validate_model(*l, preds, consts, bound) {
            Err(err) => Err(err),
            Ok(()) => validate_model(*r, preds, consts, bound),
        },
        ExprModel::Or(l, r) => match validate_model(*l, preds, consts, bound) {
            Err(err) => Err(err),
            Ok(()) => validate_model(*r, preds, consts, bound),
        },
    }
}

/// Well-formedness of an expression, stated declaratively: every predicate
/// application uses a registered signature with the right argument count,
/// and every argument symbol is a bound name or a registered constant.
pub open spec fn wf_expr(
    e: ExprModel,
    preds: Map<Seq<char>, PredicateModel>,
    consts: Set<Seq<char>>,
    bound: Set<Seq<char>>,
) -> bool
    decreases e,
{
    match e {
        ExprModel::True => true,
        ExprModel::Predicate(sig, args) => sig_defined(sig, preds) && args.len() == sig.arity
            && forall|i: int|
            0 <= i < args.len() ==> bound.contains(#[trigger] args[i]) || consts.contains(args[i]),
        ExprModel::Not(x) => wf_expr(*x, preds, consts, bound),
        ExprModel::And(l, r) => wf_expr(*l, preds, consts, bound) && wf_expr(
            *r,
            preds,
            consts,
            bound,
        ),
        ExprModel::Or(l, r) => wf_expr(*l, preds, consts, bound) && wf_expr(
            *r,
            preds,
            consts,
            bound,
        ),
    }
}

/// Validation succeeds exactly on the well-formed expressions.
pub proof fn lemma_validate_ok_iff_wf(
    e: ExprModel,
    preds: Map<Seq<char>, PredicateModel>,
    consts: Set<Seq<char>>,
    bound: Set<Seq<char>>,
)
    ensures
        (validate_model(e, preds, consts, bound) is Ok) <==> wf_expr(e, preds, consts, bound),
    decreases e,
{
    match e {
        ExprModel::True => {},
        ExprModel::Predicate(sig, args) => {
            lemma_first_unresolved_none(args, consts, bound);
        },
        ExprModel::Not(x) => {
            lemma_validate_ok_iff_wf(*x, preds, consts, bound);
        },
        ExprModel::And(l, r) => {
            lemma_validate_ok_iff_wf(*l, preds, consts, bound);
            lemma_validate_ok_iff_wf(*r, preds, consts, bound);
        },
        ExprModel::Or(l, r) => {
            lemma_validate_ok_iff_wf(*l, preds, consts, bound);
            lemma_validate_ok_iff_wf(*r, preds, consts, bound);
        },
    }
}

/// The verdict of a concrete validation call, read as a model value.
pub open spec fn verdict_model(r: Result<(), ExprError>) -> Result<(), ErrorModel> {
    match r {
        Ok(()) => Ok(()),
        Err(e) => Err(e@),
    }
}

/// Whether the list holds a symbol of the given name.
fn contains_symbol(v: &Vec<Symbol>, x: &Symbol) -> (r: bool)
    ensures
        r == seq_has_name(v@, x@),
{
    let mut i: usize = 0;
    while i < v.len()
        invariant
            i <= v@.len(),
            forall|j: int| 0 <= j < i ==> (#[trigger] v@[j])@ != x@,
        decreases v@.len() - i,
    {
        if v[i].0 == x.0 {
            proof {
                assert((#[trigger] v@[i as int])@ == x@);
            }
            return true;
        }
        i = i + 1;
    }
    false
}

impl LogicExpr {
    /// Checks the expression against a domain: every predicate application
    /// must use a registered signature, apply it to exactly as many
    /// arguments as its arity, and each argument symbol must be one of the
    /// `bound` names in scope or a registered constant. Reports the first
    /// failure of a left-to-right traversal.
    pub fn validate(&self, domain: &PredicateDomain, bound: &Vec<Symbol>) -> (r: Result<
        (),
        ExprError,
    >)
        requires
            domain.wf(),
        ensures
            verdict_model(r) == validate_model(
                self@,
                domain@.predicates,
                domain@.constants.dom(),
                name_set(bound@),
            ),
            (r is Ok) == wf_expr(
                self@,
                domain@.predicates,
                domain@.constants.dom(),
                name_set(bound@),
            ),
        decreases *self,
    {
        let ghost preds = domain@.predicates;
        let ghost consts = domain@.constants.dom();
        let ghost boundset = name_set(bound@);
        let r: Result<(), ExprError> = match self {
            LogicExpr::True => Ok(()),
            LogicExpr::Predicate(sig, args) => {
                let defined = match domain.find_predicate_index(&sig.function) {
                    Some(pi) => domain.predicates[pi].0.arity == sig.arity,
                    None => false,
                };
                if !defined {
                    Err(ExprError::UnknownPredicate(sig.function.clone()))
                } else if args.len() != sig.arity as usize {
                    Err(ExprError::ArityMismatch)
                } else {
                    let ghost argviews = args@.map_values(|s: Symbol| s@);
                    let mut i: usize = 0;
                    let mut verdict: Result<(), ExprError> = Ok(());
                    while i < args.len()
                        invariant
                            domain.wf(),
                            preds == domain@.predicates,
                            consts == domain@.constants.dom(),
                            boundset == name_set(bound@),
                            argviews == args@.map_values(|s: Symbol| s@),
                            self@ == ExprModel::Predicate(sig@, argviews),
                            sig_defined(sig@, preds),
                            argviews.len() == sig@.arity,
                            i <= args@.len(),
                            verdict is Ok,
                            forall|j: int|
                                0 <= j < i ==> boundset.contains(#[trigger] argviews[j])
                                    || consts.contains(argviews[j]),
                        decreases args@.len() - i,
                    {
                        let in_bound = contains_symbol(bound, &args[i]);
                        let is_const = domain.find_constant_index(&args[i]).is_some();
                        if !in_bound && !is_const {
                            proof {
                                lemma_first_unresolved_at(argviews, consts, boundset, i as int);
                            }
                            let offending = args[i].clone();
                            verdict = Err(ExprError::UnboundVariable(offending));
                            proof {
                                lemma_validate_ok_iff_wf(self@, preds, consts, boundset);
                            }
                            return verdict;
                        }
                        i = i + 1;
                    }
                    proof {
                        lemma_first_unresolved_none(argviews, consts, boundset);
                    }
                    verdict
                }
            },
            LogicExpr::Not(x) => x.validate(domain, bound),
            LogicExpr::And(l, rr) => {
                let rl = l.validate(domain, bound);
                if rl.is_err() {
                    rl
                } else {
                    rr.validate(domain, bound)
                }
            },
            LogicExpr::Or(l, rr) => {
                let rl = l.validate(domain, bound);
                if rl.is_err() {
                    rl
                } else {
                    rr.validate(domain, bound)
                }
            },
        };
        proof {
            lemma_validate_ok_iff_wf(self@, preds, consts, boundset);
        }
        r
    }
}

/// Whether the expression somewhere applies the predicate with the given
/// function symbol.
pub open spec fn mentions_function(e: ExprModel, f: Seq<char>) -> bool
    decreases e,
{
    match e {
        ExprModel::True => false,
        ExprModel::Predicate(sig, _args) => sig.function == f,
        ExprModel::Not(x) => mentions_function(*x, f),
        ExprModel::And(l, r) => mentions_function(*l, f) || mentions_function(*r, f),
        ExprModel::Or(l, r) => mentions_function(*l, f) || mentions_function(*r, f),
    }
}

impl LogicExpr {
    /// Whether this expression somewhere applies the predicate with the
    /// given function symbol.
    pub fn references_function(&self, function: &Symbol) -> (r: bool)
        ensures
            r == mentions_function(self@, function@),
        decreases *self,
    {
        match self {
            LogicExpr::True => false,
            LogicExpr::Predicate(sig, _args) => sig.function.0 == function.0,
            LogicExpr::Not(x) => x.references_function(function),
            LogicExpr::And(l, r) => l.references_function(function) || r.references_function(
                function,
            ),
            LogicExpr::Or(l, r) => l.references_function(function) || r.references_function(
                function,
            ),
        }
    }
}

/// Grounding a well-formed expression with a substitution that maps every
/// bound name to a registered constant gives an expression that is
/// well-formed with no bound names in scope at all.
proof fn lemma_grounding_preserves_wf(
    e: ExprModel,
    preds: Map<Seq<char>, PredicateModel>,
    consts: Set<Seq<char>>,
    bound: Set<Seq<char>>,
    m: Map<Seq<char>, Seq<char>>,
)
    requires
        wf_expr(e, preds, consts, bound),
        forall|x: Seq<char>| bound.contains(x) ==> #[trigger] m.contains_key(x),
        forall|x: Seq<char>| #[trigger] m.contains_key(x) ==> consts.contains(m[x]),
    ensures
        wf_expr(subst_model(e, m), preds, consts, Set::empty()),
    decreases e,
{
    match e {
        ExprModel::True => {},
        ExprModel::Predicate(sig, args) => {
            assert forall|i: int| 0 <= i < subst_args(args, m).len() implies Set::empty().contains(
                #[trigger] subst_args(args, m)[i],
            ) || consts.contains(subst_args(args, m)[i]) by {
                let a = args[i];
                assert(bound.contains(a) || consts.contains(a));
                if m.contains_key(a) {
                    assert(subst_args(args, m)[i] == m[a]);
                } else {
                    assert(subst_args(args, m)[i] == a);
                }
            }
        },
        ExprModel::Not(x) => {
            lemma_grounding_preserves_wf(*x, preds, consts, bound, m);
        },
        ExprModel::And(l, r) => {
            lemma_grounding_preserves_wf(*l, preds, consts, bound, m);
            lemma_grounding_preserves_wf(*r, preds, consts, bound, m);
        },
        ExprModel::Or(l, r) => {
            lemma_grounding_preserves_wf(*l, preds, consts, bound, m);
            lemma_grounding_preserves_wf(*r, preds, consts, bound, m);
        },
    }
}

/// Validating a grounded expression with an empty scope succeeds whenever
/// the original expression validated under its parameters and the grounding
/// maps every parameter to a registered constant.
pub proof fn lemma_validate_after_grounding(
    e: ExprModel,
    preds: Map<Seq<char>, PredicateModel>,
    consts: Set<Seq<char>>,
    bound: Set<Seq<char>>,
    m: Map<Seq<char>, Seq<char>>,
)
    requires
        validate_model(e, preds, consts, bound) is Ok,
        forall|x: Seq<char>| bound.contains(x) ==> #[trigger] m.contains_key(x),
        forall|x: Seq<char>| #[trigger] m.contains_key(x) ==> consts.contains(m[x]),
    ensures
        validate_model(subst_model(e, m), preds, consts, Set::empty()) is Ok,
{
    lemma_validate_ok_iff_wf(e, preds, consts, bound);
    lemma_grounding_preserves_wf(e, preds, consts, bound, m);
    lemma_validate_ok_iff_wf(subst_model(e, m), preds, consts, Set::empty());
}

/// Substitution is a structure-preserving homomorphism: it distributes over
/// the connectives.
pub proof fn lemma_substitute_homomorphism(a: ExprModel, b: ExprModel, m: Map<Seq<char>, Seq<char>>)
    ensures
        subst_model(ExprModel::And(Box::new(a), Box::new(b)), m) == ExprModel::And(
            Box::new(subst_model(a, m)),
            Box::new(subst_model(b, m)),
        ),
        subst_model(ExprModel::Or(Box::new(a), Box::new(b)), m) == ExprModel::Or(
            Box::new(subst_model(a, m)),
            Box::new(subst_model(b, m)),
        ),
        subst_model(ExprModel::Not(Box::new(a)), m) == ExprModel::Not(Box::new(subst_model(a, m))),
{
}

/// Substitution at a predicate leaf replaces exactly the argument symbols
/// present as keys of the mapping, and no others.
pub proof fn lemma_substitute_predicate(
    sig: SignatureModel,
    args: Seq<Seq<char>>,
    m: Map<Seq<char>, Seq<char>>,
)
    ensures
        subst_model(ExprModel::Predicate(sig, args), m) == ExprModel::Predicate(
            sig,
            subst_args(args, m),
        ),
        subst_args(args, m).len() == args.len(),
        forall|i: int|
            0 <= i < args.len() ==> #[trigger] subst_args(args, m)[i] == (if m.contains_key(
                args[i],
            ) {
                m[args[i]]
            } else {
                args[i]
            }),
{
}

} // verus!
