use vstd::prelude::*;

use crate::assoc::assoc_map;
use crate::assoc::distinct_keys;
use crate::assoc::lemma_assoc_map_absent;
use crate::assoc::lemma_assoc_map_dom;
use crate::assoc::lemma_assoc_map_index;
use crate::assoc::lemma_assoc_map_push;
use crate::assoc::lemma_distinct_keys_push;
use crate::expr::ExprModel;
use crate::expr::LogicExpr;
use crate::expr::mentions_function;
use crate::expr::subst_model;
use crate::expr::validate_model;
use crate::expr::wf_expr;
use crate::state::PredicateProblem;
use crate::symbols::PredicateSignature;
use crate::symbols::SignatureModel;
use crate::symbols::Symbol;
use crate::symbols::TypeName;
use crate::symbols::TypedSymbol;

verus! {

/// A named, parameterized operator: the action's formal parameters are local
/// to it, and its precondition and effect are logic expressions whose
/// argument symbols resolve to a parameter name or to a registered constant.
#[derive(Debug, Clone, PartialEq, Eq)]
pub struct Action {
    pub parameters: Vec<TypedSymbol>,
    pub precondition: LogicExpr,
    pub effect: LogicExpr,
}

/// The mathematical content of an action.
pub struct ActionModel {
    pub parameters: Seq<(Seq<char>, Seq<char>)>,
    pub precondition: ExprModel,
    pub effect: ExprModel,
}

impl View for Action {
    type V = ActionModel;

    open spec fn view(&self) -> ActionModel {
        ActionModel {
            parameters: self.parameters@.map_values(|p: TypedSymbol| p@),
            precondition: self.precondition@,
            effect: self.effect@,
        }
    }
}

/// The mathematical content of a predicate registry entry: the declared
/// arity and the typed parameter list.
pub struct PredicateModel {
    pub arity: nat,
    pub parameters: Seq<(Seq<char>, Seq<char>)>,
}

/// The mathematical content of a whole domain: one mapping per registry.
/// Predicates are keyed by their function symbol, which is globally unique.
pub struct DomainModel {
    pub types: Map<Seq<char>, Seq<Seq<char>>>,
    pub constants: Map<Seq<char>, Seq<char>>,
    pub predicates: Map<Seq<char>, PredicateModel>,
    pub actions: Map<Seq<char>, ActionModel>,
}

/// A story generated from a domain.
#[derive(Debug, PartialEq, Eq)]
pub struct PredicateStory {
    pub text: String,
}

/// The aggregate of the four registries: everything a domain can express.
/// Each registry is a list of key/value entries with pairwise distinct keys.
#[derive(Debug, PartialEq, Eq)]
pub struct PredicateDomain {
    /// Each predicate signature with its typed parameter list.
    pub predicates: Vec<(PredicateSignature, Vec<TypedSymbol>)>,
    /// Each action name with its action.
    pub actions: Vec<(Symbol, Action)>,
    /// Each constant name with its declared type.
    pub constants: Vec<(Symbol, TypeName)>,
    /// Each type name with its direct supertypes.
    pub types: Vec<(TypeName, Vec<TypeName>)>,
}

impl PredicateDomain {
    /// The type registry read as key/value pairs of character sequences.
    pub open spec fn type_pairs(self) -> Seq<(Seq<char>, Seq<Seq<char>>)> {
        self.types@.map_values(
            |e: (TypeName, Vec<TypeName>)| (e.0@, e.1@.map_values(|t: TypeName| t@)),
        )
    }

    /// The constant registry read as key/value pairs.
    pub open spec fn constant_pairs(self) -> Seq<(Seq<char>, Seq<char>)> {
        self.constants@.map_values(|e: (Symbol, TypeName)| (e.0@, e.1@))
    }

    /// The predicate registry read as pairs keyed by function symbol.
    pub open spec fn predicate_pairs(self) -> Seq<(Seq<char>, PredicateModel)> {
        self.predicates@.map_values(
            |e: (PredicateSignature, Vec<TypedSymbol>)|
                (
                    e.0.function@,
                    PredicateModel {
                        arity: e.0.arity as nat,
                        parameters: e.1@.map_values(|p: TypedSymbol| p@),
                    },
                ),
        )
    }

    /// The action registry read as key/value pairs.
    pub open spec fn action_pairs(self) -> Seq<(Seq<char>, ActionModel)> {
        self.actions@.map_values(|e: (Symbol, Action)| (e.0@, e.1@))
    }

    /// Internal consistency: every registry keeps its keys pairwise
    /// distinct, and every predicate entry's parameter list is exactly as
    /// long as its declared arity.
    pub open spec fn wf(self) -> bool {
        &&& distinct_keys(self.type_pairs())
        &&& distinct_keys(self.constant_pairs())
        &&& distinct_keys(self.predicate_pairs())
        &&& distinct_keys(self.action_pairs())
        &&& forall|i: int|
            0 <= i < self.predicates@.len() ==> (#[trigger] self.predicates@[i]).1@.len()
                == self.predicates@[i].0.arity as nat
    }
}

impl View for PredicateDomain {
    type V = DomainModel;

    open spec fn view(&self) -> DomainModel {
        DomainModel {
            types: assoc_map(self.type_pairs()),
            constants: assoc_map(self.constant_pairs()),
            predicates: assoc_map(self.predicate_pairs()),
            actions: assoc_map(self.action_pairs()),
        }
    }
}

/// Why a definition or removal was refused: a definition conflict
/// (`Duplicate*`), a broken reference (`Unknown*`, `*InUse`), a shape
/// mismatch (`ArityMismatch`), or an ill-formed expression handed to
/// an action definition. Every error carries the offending identifier
/// and is locally recoverable by the caller.
#[derive(Debug, PartialEq, Eq)]
pub enum DomainError {
    DuplicateType(TypeName),
    UnknownSupertype(TypeName),
    TypeInUse(TypeName),
    DuplicateConstant(Symbol),
    UnknownType(TypeName),
    DuplicatePredicate(Symbol),
    UnknownPredicate(Symbol),
    PredicateInUse(Symbol),
    DuplicateAction(Symbol),
    ArityMismatch,
    UnboundVariable(Symbol),
    InvalidPrecondition(crate::expr::ExprError),
    InvalidEffect(crate::expr::ExprError),
}

impl PredicateDomain {
    /// An empty domain: nothing declared yet.
    pub fn new() -> (r: Self)
        ensures
            r.wf(),
            r@.types == Map::<Seq<char>, Seq<Seq<char>>>::empty(),
            r@.constants == Map::<Seq<char>, Seq<char>>::empty(),
            r@.predicates == Map::<Seq<char>, PredicateModel>::empty(),
            r@.actions == Map::<Seq<char>, ActionModel>::empty(),
    {
        PredicateDomain { predicates: Vec::new(), actions: Vec::new(), constants: Vec::new(), types: Vec::new() }
    }

    /// Finds the registry position of a declared type, if any.
    pub(crate) fn find_type_index(&self, name: &TypeName) -> (r: Option<usize>)
        requires
            self.wf(),
        ensures
            match r {
                Some(i) => i < self.types@.len() && self.types@[i as int].0@ == name@
                    && self@.types.contains_key(name@)
                    && self@.types[name@] == self.type_pairs()[i as int].1,
                None => !self@.types.contains_key(name@),
            },
    {
        let ghost pairs = self.type_pairs();
        let mut i: usize = 0;
        while i < self.types.len()
            invariant
                self.wf(),
                i <= self.types@.len(),
                pairs == self.type_pairs(),
                forall|j: int| 0 <= j < i ==> (#[trigger] pairs[j]).0 != name@,
            decreases self.types@.len() - i,
        {
            if self.types[i].0.0 == name.0 {
                proof {
                    lemma_assoc_map_index(pairs, i as int);
                }
                return Some(i);
            }
            i = i + 1;
        }
        proof {
            lemma_assoc_map_absent(pairs, name@);
        }
        None
    }

    /// Finds the registry position of a declared constant, if any.
    pub(crate) fn find_constant_index(&self, name: &Symbol) -> (r: Option<usize>)
        requires
            self.wf(),
        ensures
            match r {
                Some(i) => i < self.constants@.len() && self.constants@[i as int].0@ == name@
                    && self@.constants.contains_key(name@) && self@.constants[name@]
                    == self.constant_pairs()[i as int].1,
                None => !self@.constants.contains_key(name@),
            },
    {
        let ghost pairs = self.constant_pairs();
        let mut i: usize = 0;
        while i < self.constants.len()
            invariant
                self.wf(),
                i <= self.constants@.len(),
                pairs == self.constant_pairs(),
                forall|j: int| 0 <= j < i ==> (#[trigger] pairs[j]).0 != name@,
            decreases self.constants@.len() - i,
        {
            if self.constants[i].0.0 == name.0 {
                proof {
                    lemma_assoc_map_index(pairs, i as int);
                }
                return Some(i);
            }
            i = i + 1;
        }
        proof {
            lemma_assoc_map_absent(pairs, name@);
        }
        None
    }

    /// Finds the registry position of the predicate with the given function
    /// symbol, whatever its arity.
    pub(crate) fn find_predicate_index(&self, function: &Symbol) -> (r: Option<usize>)
        requires
            self.wf(),
        ensures
            match r {
                Some(i) => i < self.predicates@.len() && self.predicates@[i as int].0.function@
                    == function@ && self@.predicates.contains_key(function@)
                    && self@.predicates[function@] == self.predicate_pairs()[i as int].1,
                None => !self@.predicates.contains_key(function@),
            },
    {
        let ghost pairs = self.predicate_pairs();
        let mut i: usize = 0;
        while i < self.predicates.len()
            invariant
                self.wf(),
                i <= self.predicates@.len(),
                pairs == self.predicate_pairs(),
                forall|j: int| 0 <= j < i ==> (#[trigger] pairs[j]).0 != function@,
            decreases self.predicates@.len() - i,
        {
            if self.predicates[i].0.function.0 == function.0 {
                proof {
                    lemma_assoc_map_index(pairs, i as int);
                }
                return Some(i);
            }
            i = i + 1;
        }
        proof {
            lemma_assoc_map_absent(pairs, function@);
        }
        None
    }

    /// Finds the registry position of a defined action, if any.
    fn find_action_index(&self, name: &Symbol) -> (r: Option<usize>)
        requires
            self.wf(),
        ensures
            match r {
                Some(i) => i < self.actions@.len() && self.actions@[i as int].0@ == name@
                    && self@.actions.contains_key(name@) && self@.actions[name@]
                    == self.action_pairs()[i as int].1,
                None => !self@.actions.contains_key(name@),
            },
    {
        let ghost pairs = self.action_pairs();
        let mut i: usize = 0;
        while i < self.actions.len()
            invariant
                self.wf(),
                i <= self.actions@.len(),
                pairs == self.action_pairs(),
                forall|j: int| 0 <= j < i ==> (#[trigger] pairs[j]).0 != name@,
            decreases self.actions@.len() - i,
        {
            if self.actions[i].0.0 == name.0 {
                proof {
                    lemma_assoc_map_index(pairs, i as int);
                }
                return Some(i);
            }
            i = i + 1;
        }
        proof {
            lemma_assoc_map_absent(pairs, name@);
        }
        None
    }

    /// The position of the first name of `names` that is not a declared
    /// type, if any.
    fn first_undeclared_type(&self, names: &Vec<TypeName>) -> (r: Option<usize>)
        requires
            self.wf(),
        ensures
            match r {
                Some(k) => k < names@.len() && !self@.types.contains_key(names@[k as int]@)
                    && forall|j: int|
                        0 <= j < k ==> self@.types.contains_key((#[trigger] names@[j])@),
                None => forall|j: int|
                    0 <= j < names@.len() ==> self@.types.contains_key((#[trigger] names@[j])@),
            },
    {
        let mut k: usize = 0;
        while k < names.len()
            invariant
                self.wf(),
                k <= names@.len(),
                forall|j: int| 0 <= j < k ==> self@.types.contains_key((#[trigger] names@[j])@),
            decreases names@.len() - k,
        {
            if self.find_type_index(&names[k]).is_none() {
                return Some(k);
            }
            k = k + 1;
        }
        None
    }

    /// Declares a new type with the given direct supertypes. Fails with
    /// `DuplicateType` if the name is already declared, and with
    /// `UnknownSupertype` naming the first supertype that is not yet
    /// declared: forward references are disallowed.
    pub fn define_type(&mut self, name: TypeName, supertypes: Vec<TypeName>) -> (r: Result<
        (),
        DomainError,
    >)
        requires
            old(self).wf(),
        ensures
            final(self).wf(),
            match r {
                Ok(()) => {
                    &&& !old(self)@.types.contains_key(name@)
                    &&& forall|j: int|
                        0 <= j < supertypes@.len() ==> old(self)@.types.contains_key(
                            (#[trigger] supertypes@[j])@,
                        )
                    &&& final(self)@.types == old(self)@.types.insert(
                        name@,
                        supertypes@.map_values(|t: TypeName| t@),
                    )
                    &&& final(self)@.constants == old(self)@.constants
                    &&& final(self)@.predicates == old(self)@.predicates
                    &&& final(self)@.actions == old(self)@.actions
                },
                Err(DomainError::DuplicateType(t)) => t@ == name@ && old(self)@.types.contains_key(
                    name@,
                ) && *final(self) == *old(self),
                Err(DomainError::UnknownSupertype(t)) => {
                    &&& !old(self)@.types.contains_key(name@)
                    &&& *final(self) == *old(self)
                    &&& exists|k: int|
                        0 <= k < supertypes@.len() && (#[trigger] supertypes@[k])@ == t@ && !old(
                            self,
                        )@.types.contains_key(supertypes@[k]@) && (forall|j: int|
                            0 <= j < k ==> old(self)@.types.contains_key(
                                (#[trigger] supertypes@[j])@,
                            ))
                },
                Err(_) => false,
            },
    {
        if self.find_type_index(&name).is_some() {
            return Err(DomainError::DuplicateType(name));
        }
        match self.first_undeclared_type(&supertypes) {
            Some(k) => {
                let offending = supertypes[k].clone();
                proof {
                    assert(supertypes@[k as int]@ == offending@);
                }
                Err(DomainError::UnknownSupertype(offending))
            },
            None => {
                let ghost pairs = self.type_pairs();
                let ghost keyv = name@;
                let ghost value = supertypes@.map_values(|t: TypeName| t@);
                proof {
                    lemma_assoc_map_dom(pairs, keyv);
                }
                self.types.push((name, supertypes));
                proof {
                    assert(self.type_pairs() =~= pairs.push((keyv, value)));
                    lemma_assoc_map_push(pairs, keyv, value);
                    lemma_distinct_keys_push(pairs, keyv, value);
                }
                Ok(())
            },
        }
    }

    /// Declares a new constant of a declared type. Fails with
    /// `DuplicateConstant` if the name is already declared and with
    /// `UnknownType` if the type is not.
    pub fn define_constant(&mut self, name: Symbol, ty: TypeName) -> (r: Result<(), DomainError>)
        requires
            old(self).wf(),
        ensures
            final(self).wf(),
            match r {
                Ok(()) => {
                    &&& !old(self)@.constants.contains_key(name@)
                    &&& old(self)@.types.contains_key(ty@)
                    &&& final(self)@.constants == old(self)@.constants.insert(name@, ty@)
                    &&& final(self)@.types == old(self)@.types
                    &&& final(self)@.predicates == old(self)@.predicates
                    &&& final(self)@.actions == old(self)@.actions
                },
                Err(DomainError::DuplicateConstant(s)) => s@ == name@ && old(
                    self,
                )@.constants.contains_key(name@) && *final(self) == *old(self),
                Err(DomainError::UnknownType(t)) => {
                    &&& t@ == ty@
                    &&& !old(self)@.constants.contains_key(name@)
                    &&& !old(self)@.types.contains_key(ty@)
                    &&& *final(self) == *old(self)
                },
                Err(_) => false,
            },
    {
        if self.find_constant_index(&name).is_some() {
            return Err(DomainError::DuplicateConstant(name));
        }
        if self.find_type_index(&ty).is_none() {
            return Err(DomainError::UnknownType(ty));
        }
        let ghost pairs = self.constant_pairs();
        proof {
            lemma_assoc_map_dom(pairs, name@);
        }
        let ghost keyv = name@;
        let ghost valv = ty@;
        self.constants.push((name, ty));
        proof {
            assert(self.constant_pairs() =~= pairs.push((keyv, valv)));
            lemma_assoc_map_push(pairs, keyv, valv);
            lemma_distinct_keys_push(pairs, keyv, valv);
        }
        Ok(())
    }

    /// Removes a constant unconditionally: no reference-integrity check is
    /// made on behalf of expressions that may still mention the name.
    pub fn remove_constant(&mut self, name: &Symbol)
        requires
            old(self).wf(),
        ensures
            final(self).wf(),
            final(self)@.constants == old(self)@.constants.remove(name@),
            final(self)@.types == old(self)@.types,
            final(self)@.predicates == old(self)@.predicates,
            final(self)@.actions == old(self)@.actions,
    {
        let ghost pairs = self.constant_pairs();
        match self.find_constant_index(name) {
            Some(i) => {
                self.constants.remove(i);
                proof {
                    assert(self.constant_pairs() =~= pairs.remove(i as int));
                    crate::assoc::lemma_assoc_map_remove(pairs, i as int);
                    crate::assoc::lemma_distinct_keys_remove(pairs, i as int);
                }
            },
            None => {
                proof {
                    assert(assoc_map(pairs).remove(name@) =~= assoc_map(pairs));
                }
            },
        }
    }

    /// Registers a predicate. Fails with `DuplicatePredicate` if the
    /// function symbol is already registered under any arity — function
    /// symbols are globally unique —, with `ArityMismatch` if the parameter
    /// list does not have exactly `signature.arity` entries, and with
    /// `UnknownType` naming the first parameter type that is not declared.
    pub fn define_predicate(
        &mut self,
        signature: PredicateSignature,
        parameters: Vec<TypedSymbol>,
    ) -> (r: Result<(), DomainError>)
        requires
            old(self).wf(),
        ensures
            final(self).wf(),
            match r {
                Ok(()) => {
                    &&& !old(self)@.predicates.contains_key(signature.function@)
                    &&& parameters@.len() == signature.arity as nat
                    &&& forall|j: int|
                        0 <= j < parameters@.len() ==> old(self)@.types.contains_key(
                            (#[trigger] parameters@[j]).ty@,
                        )
                    &&& final(self)@.predicates == old(self)@.predicates.insert(
                        signature.function@,
                        (PredicateModel {
                            arity: signature.arity as nat,
                            parameters: parameters@.map_values(|p: TypedSymbol| p@),
                        }),
                    )
                    &&& final(self)@.types == old(self)@.types
                    &&& final(self)@.constants == old(self)@.constants
                    &&& final(self)@.actions == old(self)@.actions
                },
                Err(DomainError::DuplicatePredicate(f)) => f@ == signature.function@ && old(
                    self,
                )@.predicates.contains_key(signature.function@) && *final(self) == *old(self),
                Err(DomainError::ArityMismatch) => {
                    &&& !old(self)@.predicates.contains_key(signature.function@)
                    &&& parameters@.len() != signature.arity as nat
                    &&& *final(self) == *old(self)
                },
                Err(DomainError::UnknownType(t)) => {
                    &&& !old(self)@.predicates.contains_key(signature.function@)
                    &&& parameters@.len() == signature.arity as nat
                    &&& *final(self) == *old(self)
                    &&& exists|k: int|
                        0 <= k < parameters@.len() && (#[trigger] parameters@[k]).ty@ == t@ && !old(
                            self,
                        )@.types.contains_key(parameters@[k].ty@) && (forall|j: int|
                            0 <= j < k ==> old(self)@.types.contains_key(
                                (#[trigger] parameters@[j]).ty@,
                            ))
                },
                Err(_) => false,
            },
    {
        if self.find_predicate_index(&signature.function).is_some() {
            return Err(DomainError::DuplicatePredicate(signature.function));
        }
        if parameters.len() as u64 != signature.arity as u64 {
            return Err(DomainError::ArityMismatch);
        }
        let mut k: usize = 0;
        while k < parameters.len()
            invariant
                self.wf(),
                *self == *old(self),
                !self@.predicates.contains_key(signature.function@),
                parameters@.len() == signature.arity as nat,
                k <= parameters@.len(),
                forall|j: int|
                    0 <= j < k ==> self@.types.contains_key((#[trigger] parameters@[j]).ty@),
            decreases parameters@.len() - k,
        {
            if self.find_type_index(&parameters[k].ty).is_none() {
                let offending = parameters[k].ty.clone();
                proof {
                    assert((#[trigger] parameters@[k as int]).ty@ == offending@ && !self@
                        .types.contains_key(parameters@[k as int].ty@));
                }
                return Err(DomainError::UnknownType(offending));
            }
            k = k + 1;
        }
        let ghost pairs = self.predicate_pairs();
        let ghost keyv = signature.function@;
        let ghost valv = PredicateModel {
            arity: signature.arity as nat,
            parameters: parameters@.map_values(|p: TypedSymbol| p@),
        };
        proof {
            lemma_assoc_map_dom(pairs, keyv);
        }
        self.predicates.push((signature, parameters));
        proof {
            assert(self.predicate_pairs() =~= pairs.push((keyv, valv)));
            lemma_assoc_map_push(pairs, keyv, valv);
            lemma_distinct_keys_push(pairs, keyv, valv);
        }
        Ok(())
    }

    /// Defines a new action. Fails with `DuplicateAction` if the name is
    /// taken, and otherwise validates the precondition and then the effect
    /// against this domain with the parameter names in scope, wrapping a
    /// failure as `InvalidPrecondition` or `InvalidEffect`.
    pub fn define_action(
        &mut self,
        name: Symbol,
        parameters: Vec<TypedSymbol>,
        precondition: LogicExpr,
        effect: LogicExpr,
    ) -> (r: Result<(), DomainError>)
        requires
            old(self).wf(),
        ensures
            final(self).wf(),
            match r {
                Ok(()) => {
                    &&& !old(self)@.actions.contains_key(name@)
                    &&& wf_expr(
                        precondition@,
                        old(self)@.predicates,
                        old(self)@.constants.dom(),
                        param_names(parameters@.map_values(|p: TypedSymbol| p@)),
                    )
                    &&& wf_expr(
                        effect@,
                        old(self)@.predicates,
                        old(self)@.constants.dom(),
                        param_names(parameters@.map_values(|p: TypedSymbol| p@)),
                    )
                    &&& final(self)@.actions == old(self)@.actions.insert(
                        name@,
                        (ActionModel {
                            parameters: parameters@.map_values(|p: TypedSymbol| p@),
                            precondition: precondition@,
                            effect: effect@,
                        }),
                    )
                    &&& final(self)@.types == old(self)@.types
                    &&& final(self)@.constants == old(self)@.constants
                    &&& final(self)@.predicates == old(self)@.predicates
                },
                Err(DomainError::DuplicateAction(n)) => n@ == name@ && old(
                    self,
                )@.actions.contains_key(name@) && *final(self) == *old(self),
                Err(DomainError::InvalidPrecondition(e)) => {
                    &&& !old(self)@.actions.contains_key(name@)
                    &&& validate_model(
                        precondition@,
                        old(self)@.predicates,
                        old(self)@.constants.dom(),
                        param_names(parameters@.map_values(|p: TypedSymbol| p@)),
                    ) == Err::<(), crate::expr::ErrorModel>(e@)
                    &&& *final(self) == *old(self)
                },
                Err(DomainError::InvalidEffect(e)) => {
                    &&& !old(self)@.actions.contains_key(name@)
                    &&& validate_model(
                        precondition@,
                        old(self)@.predicates,
                        old(self)@.constants.dom(),
                        param_names(parameters@.map_values(|p: TypedSymbol| p@)),
                    ) is Ok
                    &&& validate_model(
                        effect@,
                        old(self)@.predicates,
                        old(self)@.constants.dom(),
                        param_names(parameters@.map_values(|p: TypedSymbol| p@)),
                    ) == Err::<(), crate::expr::ErrorModel>(e@)
                    &&& *final(self) == *old(self)
                },
                Err(_) => false,
            },
    {
        if self.find_action_index(&name).is_some() {
            return Err(DomainError::DuplicateAction(name));
        }
        let ghost pview = parameters@.map_values(|p: TypedSymbol| p@);
        let mut names: Vec<Symbol> = Vec::new();
        let mut i: usize = 0;
        while i < parameters.len()
            invariant
                i <= parameters@.len(),
                names@.len() == i,
                forall|j: int| 0 <= j < i ==> (#[trigger] names@[j])@ == parameters@[j].name@,
            decreases parameters@.len() - i,
        {
            names.push(parameters[i].name.clone());
            i = i + 1;
        }
        proof {
            assert forall|n: Seq<char>|
                crate::symbols::name_set(names@).contains(n) == param_names(pview).contains(n) by {
                if crate::symbols::seq_has_name(names@, n) {
                    let ix = choose|ix: int|
                        0 <= ix < names@.len() && (#[trigger] names@[ix])@ == n;
                    assert((#[trigger] pview[ix]).0 == n);
                }
                if param_names(pview).contains(n) {
                    let ix = choose|ix: int|
                        0 <= ix < pview.len() && (#[trigger] pview[ix]).0 == n;
                    assert((#[trigger] names@[ix])@ == n);
                }
            }
            assert(crate::symbols::name_set(names@) =~= param_names(pview));
        }
        match precondition.validate(self, &names) {
            Err(e) => {
                return Err(DomainError::InvalidPrecondition(e));
            },
            Ok(()) => {},
        }
        match effect.validate(self, &names) {
            Err(e) => {
                return Err(DomainError::InvalidEffect(e));
            },
            Ok(()) => {},
        }
        let ghost pairs = self.action_pairs();
        let ghost keyv = name@;
        let ghost valv = ActionModel {
            parameters: pview,
            precondition: precondition@,
            effect: effect@,
        };
        proof {
            lemma_assoc_map_dom(pairs, keyv);
        }
        self.actions.push((name, Action { parameters, precondition, effect }));
        proof {
            assert(self.action_pairs() =~= pairs.push((keyv, valv)));
            lemma_assoc_map_push(pairs, keyv, valv);
            lemma_distinct_keys_push(pairs, keyv, valv);
        }
        Ok(())
    }

    /// Removes an action unconditionally: nothing else refers to actions.
    pub fn remove_action(&mut self, name: &Symbol)
        requires
            old(self).wf(),
        ensures
            final(self).wf(),
            final(self)@.actions == old(self)@.actions.remove(name@),
            final(self)@.types == old(self)@.types,
            final(self)@.constants == old(self)@.constants,
            final(self)@.predicates == old(self)@.predicates,
    {
        let ghost pairs = self.action_pairs();
        match self.find_action_index(name) {
            Some(i) => {
                self.actions.remove(i);
                proof {
                    assert(self.action_pairs() =~= pairs.remove(i as int));
                    crate::assoc::lemma_assoc_map_remove(pairs, i as int);
                    crate::assoc::lemma_distinct_keys_remove(pairs, i as int);
                }
            },
            None => {
                proof {
                    assert(assoc_map(pairs).remove(name@) =~= assoc_map(pairs));
                }
            },
        }
    }

    /// Whether some registry entry or problem object declares the type `t`:
    /// a constant of that type, a predicate or action parameter of it, or a
    /// problem object of it.
    pub open spec fn type_in_use(self, objects: Seq<(Seq<char>, Seq<char>)>, t: Seq<char>) -> bool {
        ||| exists|i: int|
            0 <= i < self.constant_pairs().len() && (#[trigger] self.constant_pairs()[i]).1 == t
        ||| exists|i: int, j: int|
            #![trigger self.predicate_pairs()[i].1.parameters[j]]
            0 <= i < self.predicate_pairs().len() && 0 <= j
                < self.predicate_pairs()[i].1.parameters.len()
                && self.predicate_pairs()[i].1.parameters[j].1 == t
        ||| exists|i: int, j: int|
            #![trigger self.action_pairs()[i].1.parameters[j]]
            0 <= i < self.action_pairs().len() && 0 <= j
                < self.action_pairs()[i].1.parameters.len()
                && self.action_pairs()[i].1.parameters[j].1 == t
        ||| exists|i: int| 0 <= i < objects.len() && (#[trigger] objects[i]).1 == t
    }

    /// Removes a declared type. Fails with `TypeInUse` while any constant,
    /// predicate parameter, action parameter, or object of the given
    /// problem still declares the type; nothing cascades. Removing a name
    /// that is not declared and not in use changes nothing.
    pub fn remove_type(&mut self, name: &TypeName, problem: &PredicateProblem) -> (r: Result<
        (),
        DomainError,
    >)
        requires
            old(self).wf(),
        ensures
            final(self).wf(),
            match r {
                Ok(()) => {
                    &&& !old(self).type_in_use(problem@.objects, name@)
                    &&& final(self)@.types == old(self)@.types.remove(name@)
                    &&& final(self)@.constants == old(self)@.constants
                    &&& final(self)@.predicates == old(self)@.predicates
                    &&& final(self)@.actions == old(self)@.actions
                },
                Err(DomainError::TypeInUse(t)) => t@ == name@ && old(self).type_in_use(
                    problem@.objects,
                    name@,
                ) && *final(self) == *old(self),
                Err(_) => false,
            },
    {
        let mut i: usize = 0;
        while i < self.constants.len()
            invariant
                self.wf(),
                *self == *old(self),
                i <= self.constants@.len(),
                forall|j: int|
                    0 <= j < i ==> (#[trigger] self.constant_pairs()[j]).1 != name@,
            decreases self.constants@.len() - i,
        {
            if self.constants[i].1.0 == name.0 {
                proof {
                    assert((#[trigger] self.constant_pairs()[i as int]).1 == name@);
                }
                return Err(DomainError::TypeInUse(name.clone()));
            }
            i = i + 1;
        }
        let mut i: usize = 0;
        while i < self.predicates.len()
            invariant
                self.wf(),
                *self == *old(self),
                i <= self.predicates@.len(),
                forall|j: int|
                    0 <= j < self.constants@.len() ==> (#[trigger] self.constant_pairs()[j]).1
                        != name@,
                forall|i2: int, j: int|
                    #![trigger self.predicate_pairs()[i2].1.parameters[j]]
                    0 <= i2 < i && 0 <= j < self.predicate_pairs()[i2].1.parameters.len()
                        ==> self.predicate_pairs()[i2].1.parameters[j].1 != name@,
            decreases self.predicates@.len() - i,
        {
            if type_used_in_params(&self.predicates[i].1, name) {
                proof {
                    let j = choose|j: int|
                        0 <= j < self.predicates@[i as int].1@.len() && (
                        #[trigger] self.predicates@[i as int].1@[j]).ty@ == name@;
                    assert(self.predicate_pairs()[i as int].1.parameters[j].1 == name@);
                }
                return Err(DomainError::TypeInUse(name.clone()));
            }
            i = i + 1;
        }
        let mut i: usize = 0;
        while i < self.actions.len()
            invariant
                self.wf(),
                *self == *old(self),
                i <= self.actions@.len(),
                forall|j: int|
                    0 <= j < self.constants@.len() ==> (#[trigger] self.constant_pairs()[j]).1
                        != name@,
                forall|i2: int, j: int|
                    #![trigger self.predicate_pairs()[i2].1.parameters[j]]
                    0 <= i2 < self.predicates@.len() && 0 <= j
                        < self.predicate_pairs()[i2].1.parameters.len()
                        ==> self.predicate_pairs()[i2].1.parameters[j].1 != name@,
                forall|i2: int, j: int|
                    #![trigger self.action_pairs()[i2].1.parameters[j]]
                    0 <= i2 < i && 0 <= j < self.action_pairs()[i2].1.parameters.len()
                        ==> self.action_pairs()[i2].1.parameters[j].1 != name@,
            decreases self.actions@.len() - i,
        {
            if type_used_in_params(&self.actions[i].1.parameters, name) {
                proof {
                    let j = choose|j: int|
                        0 <= j < self.actions@[i as int].1.parameters@.len() && (
                        #[trigger] self.actions@[i as int].1.parameters@[j]).ty@ == name@;
                    assert(self.action_pairs()[i as int].1.parameters[j].1 == name@);
                }
                return Err(DomainError::TypeInUse(name.clone()));
            }
            i = i + 1;
        }
        if type_used_in_params(&problem.objects, name) {
            proof {
                let j = choose|j: int|
                    0 <= j < problem.objects@.len() && (#[trigger] problem.objects@[j]).ty@
                        == name@;
                assert((#[trigger] problem@.objects[j]).1 == name@);
            }
            return Err(DomainError::TypeInUse(name.clone()));
        }
        let ghost pairs = self.type_pairs();
        match self.find_type_index(name) {
            Some(i) => {
                self.types.remove(i);
                proof {
                    assert(self.type_pairs() =~= pairs.remove(i as int));
                    crate::assoc::lemma_assoc_map_remove(pairs, i as int);
                    crate::assoc::lemma_distinct_keys_remove(pairs, i as int);
                }
            },
            None => {
                proof {
                    assert(assoc_map(pairs).remove(name@) =~= assoc_map(pairs));
                }
            },
        }
        Ok(())
    }

    /// Whether some action's precondition or effect applies the predicate
    /// with function symbol `f`, or the given initial state binds a
    /// signature with that function symbol.
    pub open spec fn predicate_in_use(
        self,
        initial_pairs: Seq<(SignatureModel, Seq<Seq<char>>)>,
        f: Seq<char>,
    ) -> bool {
        ||| exists|i: int|
            0 <= i < self.action_pairs().len() && (mentions_function(
                (#[trigger] self.action_pairs()[i]).1.precondition,
                f,
            ) || mentions_function(self.action_pairs()[i].1.effect, f))
        ||| exists|i: int|
            0 <= i < initial_pairs.len() && (#[trigger] initial_pairs[i]).0.function == f
    }

    /// Removes the predicate registered under the signature's function
    /// symbol, the registry's unique key. Fails with `PredicateInUse` while
    /// any action's precondition or effect, or the given problem's initial
    /// state, still references the function symbol; callers must clean up
    /// referencing expressions first, nothing cascades. Removing a function
    /// symbol that is not registered and not referenced changes nothing.
    pub fn remove_predicate(
        &mut self,
        signature: &PredicateSignature,
        problem: &PredicateProblem,
    ) -> (r: Result<(), DomainError>)
        requires
            old(self).wf(),
        ensures
            final(self).wf(),
            match r {
                Ok(()) => {
                    &&& !old(self).predicate_in_use(
                        problem.initial_state.pairs(),
                        signature.function@,
                    )
                    &&& final(self)@.predicates == old(self)@.predicates.remove(
                        signature.function@,
                    )
                    &&& final(self)@.types == old(self)@.types
                    &&& final(self)@.constants == old(self)@.constants
                    &&& final(self)@.actions == old(self)@.actions
                },
                Err(DomainError::PredicateInUse(fs)) => fs@ == signature.function@
                    && old(self).predicate_in_use(problem.initial_state.pairs(), signature.function@)
                    && *final(self) == *old(self),
                Err(_) => false,
            },
    {
        let mut i: usize = 0;
        while i < self.actions.len()
            invariant
                self.wf(),
                *self == *old(self),
                i <= self.actions@.len(),
                forall|j: int|
                    0 <= j < i ==> !mentions_function(
                        (#[trigger] self.action_pairs()[j]).1.precondition,
                        signature.function@,
                    ) && !mentions_function(
                        self.action_pairs()[j].1.effect,
                        signature.function@,
                    ),
            decreases self.actions@.len() - i,
        {
            let action = &self.actions[i].1;
            if action.precondition.references_function(&signature.function)
                || action.effect.references_function(&signature.function) {
                proof {
                    assert((#[trigger] self.action_pairs()[i as int]).1
                        == self.actions@[i as int].1@);
                }
                return Err(DomainError::PredicateInUse(signature.function.clone()));
            }
            i = i + 1;
        }
        let ghost initpairs = problem.initial_state.pairs();
        let mut i: usize = 0;
        while i < problem.initial_state.bound_predicates.len()
            invariant
                self.wf(),
                *self == *old(self),
                initpairs == problem.initial_state.pairs(),
                i <= problem.initial_state.bound_predicates@.len(),
                forall|j: int|
                    0 <= j < self.actions@.len() ==> !mentions_function(
                        (#[trigger] self.action_pairs()[j]).1.precondition,
                        signature.function@,
                    ) && !mentions_function(
                        self.action_pairs()[j].1.effect,
                        signature.function@,
                    ),
                forall|j: int|
                    0 <= j < i ==> (#[trigger] initpairs[j]).0.function != signature.function@,
            decreases problem.initial_state.bound_predicates@.len() - i,
        {
            if problem.initial_state.bound_predicates[i].0.function.0 == signature.function.0 {
                proof {
                    assert((#[trigger] initpairs[i as int]).0.function == signature.function@);
                }
                return Err(DomainError::PredicateInUse(signature.function.clone()));
            }
            i = i + 1;
        }
        let ghost pairs = self.predicate_pairs();
        match self.find_predicate_index(&signature.function) {
            Some(i) => {
                self.predicates.remove(i);
                proof {
                    assert(self.predicate_pairs() =~= pairs.remove(i as int));
                    crate::assoc::lemma_assoc_map_remove(pairs, i as int);
                    crate::assoc::lemma_distinct_keys_remove(pairs, i as int);
                }
            },
            None => {
                proof {
                    assert(assoc_map(pairs).remove(signature.function@) =~= assoc_map(pairs));
                }
            },
        }
        Ok(())
    }

    /// The story generator of this domain. Story and plan generation is not
    /// implemented: no search over action sequences exists, so no story is
    /// ever produced.
    pub fn generate_story(&self) -> (r: Option<PredicateStory>)
        ensures
            r is None,
    {
        None
    }
}

impl Default for PredicateDomain {
    /// The same empty domain that `new` builds.
    fn default() -> (r: Self)
        ensures
            r.wf(),
            r@.types == Map::<Seq<char>, Seq<Seq<char>>>::empty(),
            r@.constants == Map::<Seq<char>, Seq<char>>::empty(),
            r@.predicates == Map::<Seq<char>, PredicateModel>::empty(),
            r@.actions == Map::<Seq<char>, ActionModel>::empty(),
    {
        PredicateDomain::new()
    }
}

/// The set of names that a typed parameter or object list declares.
pub open spec fn param_names(params: Seq<(Seq<char>, Seq<char>)>) -> Set<Seq<char>> {
    Set::new(
        |n: Seq<char>| exists|i: int| 0 <= i < params.len() && (#[trigger] params[i]).0 == n,
    )
}

/// The grounding substitution of an action: its i-th parameter name maps to
/// the i-th call argument; with duplicate parameter names the later
/// occurrence wins.
pub open spec fn ground_map(
    params: Seq<(Seq<char>, Seq<char>)>,
    args: Seq<Seq<char>>,
) -> Map<Seq<char>, Seq<char>> {
    assoc_map(Seq::new(params.len(), |i: int| (params[i].0, args[i])))
}

impl Action {
    /// Grounds the action against concrete call arguments: fails with
    /// `ArityMismatch` unless there is exactly one argument per formal
    /// parameter, and otherwise returns the precondition and the effect
    /// with every parameter name replaced by its argument.
    pub fn ground(&self, args: &Vec<Symbol>) -> (r: Result<(LogicExpr, LogicExpr), DomainError>)
        ensures
            match r {
                Ok(pe) => {
                    &&& args@.len() == self.parameters@.len()
                    &&& pe.0@ == subst_model(
                        self@.precondition,
                        ground_map(self@.parameters, args@.map_values(|s: Symbol| s@)),
                    )
                    &&& pe.1@ == subst_model(
                        self@.effect,
                        ground_map(self@.parameters, args@.map_values(|s: Symbol| s@)),
                    )
                },
                Err(DomainError::ArityMismatch) => args@.len() != self.parameters@.len(),
                Err(_) => false,
            },
    {
        if args.len() != self.parameters.len() {
            return Err(DomainError::ArityMismatch);
        }
        let ghost pview = self.parameters@.map_values(|p: TypedSymbol| p@);
        let ghost argviews = args@.map_values(|s: Symbol| s@);
        let mut bindings: Vec<(Symbol, Symbol)> = Vec::new();
        let mut i: usize = 0;
        while i < self.parameters.len()
            invariant
                args@.len() == self.parameters@.len(),
                i <= self.parameters@.len(),
                pview == self.parameters@.map_values(|p: TypedSymbol| p@),
                argviews == args@.map_values(|s: Symbol| s@),
                bindings@.len() == i,
                forall|j: int|
                    0 <= j < i ==> ((#[trigger] bindings@[j]).0@ == pview[j].0
                        && bindings@[j].1@ == argviews[j]),
            decreases self.parameters@.len() - i,
        {
            bindings.push((self.parameters[i].name.clone(), args[i].clone()));
            i = i + 1;
        }
        proof {
            assert(bindings@.map_values(|p: (Symbol, Symbol)| (p.0@, p.1@)) =~= Seq::new(
                pview.len(),
                |j: int| (pview[j].0, argviews[j]),
            ));
            assert(crate::expr::bindings_map(bindings@) == ground_map(pview, argviews));
        }
        let pre = self.precondition.substitute(&bindings);
        let eff = self.effect.substitute(&bindings);
        Ok((pre, eff))
    }
}

/// Whether some parameter of the list declares the type `name`.
fn type_used_in_params(params: &Vec<TypedSymbol>, name: &TypeName) -> (r: bool)
    ensures
        r == (exists|j: int| 0 <= j < params@.len() && (#[trigger] params@[j]).ty@ == name@),
{
    let mut j: usize = 0;
    while j < params.len()
        invariant
            j <= params@.len(),
            forall|k: int| 0 <= k < j ==> (#[trigger] params@[k]).ty@ != name@,
        decreases params@.len() - j,
    {
        if params[j].ty.0 == name.0 {
            proof {
                assert((#[trigger] params@[j as int]).ty@ == name@);
            }
            return true;
        }
        j = j + 1;
    }
    false
}

/// Every registered predicate keeps exactly as many parameters as its
/// declared arity: the registration checks establish the invariant and every
/// operation preserves it.
pub proof fn lemma_predicate_arity_invariant(d: PredicateDomain)
    requires
        d.wf(),
    ensures
        forall|f: Seq<char>|
            #[trigger] d@.predicates.contains_key(f) ==> d@.predicates[f].parameters.len()
                == d@.predicates[f].arity,
{
    assert forall|f: Seq<char>| #[trigger] d@.predicates.contains_key(f) implies d@.predicates[f].parameters.len()
        == d@.predicates[f].arity by {
        let pairs = d.predicate_pairs();
        lemma_assoc_map_dom(pairs, f);
        let i = choose|i: int| 0 <= i < pairs.len() && (#[trigger] pairs[i]).0 == f;
        lemma_assoc_map_index(pairs, i);
    }
}

} // verus!
