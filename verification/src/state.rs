use vstd::prelude::*;

use crate::assoc::assoc_map;
use crate::assoc::distinct_keys;
use crate::assoc::lemma_assoc_map_absent;
use crate::assoc::lemma_assoc_map_index;
use crate::assoc::lemma_assoc_map_push;
use crate::assoc::lemma_assoc_map_remove;
use crate::assoc::lemma_distinct_keys_push;
use crate::assoc::lemma_distinct_keys_remove;
use crate::domain::DomainError;
use crate::domain::PredicateDomain;
use crate::domain::param_names;
use crate::expr::ExprModel;
use crate::expr::LogicExpr;
use crate::expr::first_unresolved;
use crate::expr::lemma_first_unresolved_at;
use crate::expr::lemma_first_unresolved_none;
use crate::expr::sig_defined;
use crate::symbols::PredicateSignature;
use crate::symbols::SignatureModel;
use crate::symbols::Symbol;
use crate::symbols::TypeName;
use crate::symbols::TypedSymbol;

verus! {

/// A stable integer handle for a named object of a story state. Handles are
/// assigned sequentially on first reference and never reused.
#[derive(Debug, Clone, Copy, PartialEq, Eq, Hash)]
pub struct Atom(usize);

impl View for Atom {
    type V = nat;

    closed spec fn view(&self) -> nat {
        self.0 as nat
    }
}

/// A ground-fact state: every distinct named object is assigned a stable
/// handle on first reference, and `bound_predicates` records which
/// predicate/argument-tuple combinations are currently true. A combination
/// that is absent is false: the closed-world assumption.
#[derive(Debug, Clone, PartialEq, Eq)]
pub struct StoryState {
    /// All objects the state has seen, in handle order.
    pub atoms: Vec<TypedSymbol>,
    /// Each signature bound here is true of exactly the recorded tuple.
    pub bound_predicates: Vec<(PredicateSignature, Vec<Atom>)>,
}

/// The mathematical content of a story state.
pub struct StateModel {
    pub atoms: Seq<(Seq<char>, Seq<char>)>,
    pub bound: Map<SignatureModel, Seq<nat>>,
}

impl StoryState {
    /// The bound predicates read as key/value pairs.
    pub open spec fn bound_pairs(self) -> Seq<(SignatureModel, Seq<nat>)> {
        self.bound_predicates@.map_values(
            |e: (PredicateSignature, Vec<Atom>)| (e.0@, e.1@.map_values(|a: Atom| a@)),
        )
    }

    /// Internal consistency: no signature is bound twice.
    pub open spec fn wf(self) -> bool {
        distinct_keys(self.bound_pairs())
    }
}

impl View for StoryState {
    type V = StateModel;

    open spec fn view(&self) -> StateModel {
        StateModel {
            atoms: self.atoms@.map_values(|p: TypedSymbol| p@),
            bound: assoc_map(self.bound_pairs()),
        }
    }
}

/// The handle of the first object carrying a name, if any.
pub open spec fn find_atom(atoms: Seq<(Seq<char>, Seq<char>)>, n: Seq<char>) -> Option<int>
    decreases atoms.len(),
{
    if atoms.len() == 0 {
        None
    } else if atoms[0].0 == n {
        Some(0int)
    } else {
        match find_atom(atoms.drop_first(), n) {
            Some(i) => Some(i + 1),
            None => None,
        }
    }
}

/// The first object carrying a name stands at the first position whose name
/// matches.
proof fn lemma_find_atom_at(atoms: Seq<(Seq<char>, Seq<char>)>, n: Seq<char>, i: int)
    requires
        0 <= i < atoms.len(),
        forall|j: int| 0 <= j < i ==> (#[trigger] atoms[j]).0 != n,
        atoms[i].0 == n,
    ensures
        find_atom(atoms, n) == Some(i),
    decreases i,
{
    if i > 0 {
        assert(atoms[0].0 != n);
        assert forall|j: int| 0 <= j < i - 1 implies (#[trigger] atoms.drop_first()[j]).0 != n by {
            assert(atoms.drop_first()[j] == atoms[j + 1]);
        }
        assert(atoms.drop_first()[i - 1] == atoms[i]);
        lemma_find_atom_at(atoms.drop_first(), n, i - 1);
    }
}

/// A name carried by no object is found nowhere.
proof fn lemma_find_atom_none(atoms: Seq<(Seq<char>, Seq<char>)>, n: Seq<char>)
    requires
        forall|j: int| 0 <= j < atoms.len() ==> (#[trigger] atoms[j]).0 != n,
    ensures
        find_atom(atoms, n) is None,
    decreases atoms.len(),
{
    if atoms.len() > 0 {
        assert forall|j: int| 0 <= j < atoms.drop_first().len() implies (
        #[trigger] atoms.drop_first()[j]).0 != n by {
            assert(atoms.drop_first()[j] == atoms[j + 1]);
        }
        lemma_find_atom_none(atoms.drop_first(), n);
        assert((#[trigger] atoms[0]).0 != n);
    }
}

impl StoryState {
    /// An empty state: no objects seen, nothing true.
    pub fn new() -> (r: Self)
        ensures
            r.wf(),
            r@.atoms == Seq::<(Seq<char>, Seq<char>)>::empty(),
            r@.bound == Map::<SignatureModel, Seq<nat>>::empty(),
    {
        StoryState { atoms: Vec::new(), bound_predicates: Vec::new() }
    }

    /// The handle of the named object, if the state has seen it.
    pub fn get_atom(&self, name: &Symbol) -> (r: Option<Atom>)
        ensures
            match r {
                Some(a) => find_atom(self@.atoms, name@) == Some(a@ as int),
                None => find_atom(self@.atoms, name@) is None,
            },
    {
        let ghost atomviews = self@.atoms;
        let mut i: usize = 0;
        while i < self.atoms.len()
            invariant
                atomviews == self@.atoms,
                i <= self.atoms@.len(),
                forall|j: int| 0 <= j < i ==> (#[trigger] atomviews[j]).0 != name@,
            decreases self.atoms@.len() - i,
        {
            if self.atoms[i].name.0 == name.0 {
                proof {
                    lemma_find_atom_at(atomviews, name@, i as int);
                }
                return Some(Atom(i));
            }
            i = i + 1;
        }
        proof {
            lemma_find_atom_none(atomviews, name@);
        }
        None
    }

    /// The handle of the named object, assigning the next sequential handle
    /// on first reference: the handle space is append-only, and a handle,
    /// once given out, never changes meaning.
    pub fn get_or_insert_atom(&mut self, name: &Symbol, ty: &TypeName) -> (r: Atom)
        ensures
            final(self).wf() == old(self).wf(),
            match find_atom(old(self)@.atoms, name@) {
                Some(i) => r@ == i && *final(self) == *old(self),
                None => {
                    &&& r@ == old(self)@.atoms.len()
                    &&& final(self)@.atoms == old(self)@.atoms.push((name@, ty@))
                    &&& final(self)@.bound == old(self)@.bound
                },
            },
    {
        let ghost atomviews = self@.atoms;
        let mut i: usize = 0;
        while i < self.atoms.len()
            invariant
                *self == *old(self),
                atomviews == self@.atoms,
                i <= self.atoms@.len(),
                forall|j: int| 0 <= j < i ==> (#[trigger] atomviews[j]).0 != name@,
            decreases self.atoms@.len() - i,
        {
            if self.atoms[i].name.0 == name.0 {
                proof {
                    lemma_find_atom_at(atomviews, name@, i as int);
                }
                return Atom(i);
            }
            i = i + 1;
        }
        proof {
            lemma_find_atom_none(atomviews, name@);
        }
        let n = self.atoms.len();
        self.atoms.push(TypedSymbol { name: name.clone(), ty: ty.clone() });
        proof {
            assert(self@.atoms =~= old(self)@.atoms.push((name@, ty@)));
            assert(self.bound_pairs() =~= old(self).bound_pairs());
        }
        Atom(n)
    }

    /// The name of the object behind a handle, if the handle is in range.
    pub fn get_atom_name(&self, atom: Atom) -> (r: Option<&str>)
        ensures
            match r {
                Some(s) => atom@ < self@.atoms.len() && s@ == self@.atoms[atom@ as int].0,
                None => atom@ >= self@.atoms.len(),
            },
    {
        if atom.0 < self.atoms.len() {
            Some(self.atoms[atom.0].name.0.as_str())
        } else {
            None
        }
    }

    /// Finds the position of a bound predicate with exactly this signature.
    fn find_bound_index(&self, signature: &PredicateSignature) -> (r: Option<usize>)
        requires
            self.wf(),
        ensures
            match r {
                Some(i) => i < self.bound_predicates@.len() && self.bound_pairs()[i as int].0
                    == signature@ && self@.bound.contains_key(signature@) && self@.bound[signature@]
                    == self.bound_pairs()[i as int].1,
                None => !self@.bound.contains_key(signature@),
            },
    {
        let ghost pairs = self.bound_pairs();
        let mut i: usize = 0;
        while i < self.bound_predicates.len()
            invariant
                self.wf(),
                pairs == self.bound_pairs(),
                i <= self.bound_predicates@.len(),
                forall|j: int| 0 <= j < i ==> (#[trigger] pairs[j]).0 != signature@,
            decreases self.bound_predicates@.len() - i,
        {
            let entry_sig = &self.bound_predicates[i].0;
            if entry_sig.function.0 == signature.function.0 && entry_sig.arity == signature.arity {
                proof {
                    lemma_assoc_map_index(pairs, i as int);
                }
                return Some(i);
            }
            i = i + 1;
        }
        proof {
            lemma_assoc_map_absent(pairs, signature@);
        }
        None
    }

    /// Makes the predicate true of exactly the given argument tuple,
    /// replacing any tuple the signature was bound to before.
    pub fn bind_predicate(&mut self, signature: PredicateSignature, atoms: Vec<Atom>)
        requires
            old(self).wf(),
        ensures
            final(self).wf(),
            final(self)@.bound == old(self)@.bound.insert(
                signature@,
                atoms@.map_values(|a: Atom| a@),
            ),
            final(self)@.atoms == old(self)@.atoms,
    {
        let ghost pairs = self.bound_pairs();
        let ghost keyv = signature@;
        let ghost valv = atoms@.map_values(|a: Atom| a@);
        match self.find_bound_index(&signature) {
            Some(i) => {
                self.bound_predicates.remove(i);
                let ghost mid = pairs.remove(i as int);
                proof {
                    assert(self.bound_pairs() =~= mid);
                    lemma_assoc_map_remove(pairs, i as int);
                    lemma_distinct_keys_remove(pairs, i as int);
                    assert forall|j: int| 0 <= j < mid.len() implies (#[trigger] mid[j]).0
                        != keyv by {
                        if j < i {
                            assert(mid[j] == pairs[j]);
                        } else {
                            assert(mid[j] == pairs[j + 1]);
                        }
                    }
                    lemma_assoc_map_absent(mid, keyv);
                }
                self.bound_predicates.push((signature, atoms));
                proof {
                    assert(self.bound_pairs() =~= mid.push((keyv, valv)));
                    lemma_assoc_map_push(mid, keyv, valv);
                    assert(!crate::assoc::has_key(mid, keyv));
                    lemma_distinct_keys_push(mid, keyv, valv);
                    assert(assoc_map(pairs).remove(keyv).insert(keyv, valv) =~= assoc_map(
                        pairs,
                    ).insert(keyv, valv));
                }
            },
            None => {
                self.bound_predicates.push((signature, atoms));
                proof {
                    assert(self.bound_pairs() =~= pairs.push((keyv, valv)));
                    lemma_assoc_map_push(pairs, keyv, valv);
                    assert forall|j: int| 0 <= j < pairs.len() implies (#[trigger] pairs[j]).0
                        != keyv by {
                        if pairs[j].0 == keyv {
                            lemma_assoc_map_index(pairs, j);
                        }
                    }
                    lemma_distinct_keys_push(pairs, keyv, valv);
                }
            },
        }
    }
}

impl Default for StoryState {
    /// The same empty state that `new` builds.
    fn default() -> (r: Self)
        ensures
            r.wf(),
            r@.atoms == Seq::<(Seq<char>, Seq<char>)>::empty(),
            r@.bound == Map::<SignatureModel, Seq<nat>>::empty(),
    {
        StoryState::new()
    }
}

/// The handle an argument name resolves to, with an out-of-range stand-in
/// where it resolves to none; the stand-in is never read, because every use
/// is guarded by the resolvability of the whole argument list.
pub open spec fn atom_of(atoms: Seq<(Seq<char>, Seq<char>)>, n: Seq<char>) -> int {
    match find_atom(atoms, n) {
        Some(i) => i,
        None => -1,
    }
}

/// A predicate application holds in a state exactly when every argument
/// name resolves to a handle and the signature is bound to exactly that
/// handle tuple; argument order matters.
pub open spec fn pred_holds(sig: SignatureModel, args: Seq<Seq<char>>, st: StateModel) -> bool {
    &&& forall|i: int| 0 <= i < args.len() ==> (#[trigger] find_atom(st.atoms, args[i])) is Some
    &&& st.bound.contains_key(sig)
    &&& st.bound[sig] == Seq::new(args.len(), |i: int| atom_of(st.atoms, args[i]) as nat)
}

/// Truth of an expression in a state, under the closed-world assumption: an
/// unresolvable argument or an unbound combination makes a predicate false,
/// never an error.
pub open spec fn eval_model(e: ExprModel, st: StateModel) -> bool
    decreases e,
{
    match e {
        ExprModel::True => true,
        ExprModel::Predicate(sig, args) => pred_holds(sig, args, st),
        ExprModel::Not(x) => !eval_model(*x, st),
        ExprModel::And(l, r) => eval_model(*l, st) && eval_model(*r, st),
        ExprModel::Or(l, r) => eval_model(*l, st) || eval_model(*r, st),
    }
}

/// Whether two handle tuples are the same, position by position.
fn eq_atoms(a: &Vec<Atom>, b: &Vec<Atom>) -> (r: bool)
    ensures
        r == (a@.map_values(|x: Atom| x@) == b@.map_values(|x: Atom| x@)),
{
    let ghost av = a@.map_values(|x: Atom| x@);
    let ghost bv = b@.map_values(|x: Atom| x@);
    if a.len() != b.len() {
        proof {
            assert(av.len() != bv.len());
        }
        return false;
    }
    let mut i: usize = 0;
    while i < a.len()
        invariant
            av == a@.map_values(|x: Atom| x@),
            bv == b@.map_values(|x: Atom| x@),
            a@.len() == b@.len(),
            i <= a@.len(),
            forall|j: int| 0 <= j < i ==> av[j] == bv[j],
        decreases a@.len() - i,
    {
        if a[i].0 != b[i].0 {
            proof {
                assert(av[i as int] != bv[i as int]);
            }
            return false;
        }
        i = i + 1;
    }
    proof {
        assert(av =~= bv);
    }
    true
}

impl LogicExpr {
    /// Truth of this expression in a story state, under the closed-world
    /// assumption: a predicate is true exactly when every argument resolves
    /// to a known object and the signature is bound to exactly that tuple,
    /// in that order; everything absent is false.
    pub fn evaluate(&self, state: &StoryState) -> (r: bool)
        requires
            state.wf(),
        ensures
            r == eval_model(self@, state@),
        decreases *self,
    {
        match self {
            LogicExpr::True => true,
            LogicExpr::Predicate(sig, args) => {
                let ghost argviews = args@.map_values(|s: Symbol| s@);
                let mut tuple: Vec<Atom> = Vec::new();
                let mut i: usize = 0;
                while i < args.len()
                    invariant
                        state.wf(),
                        argviews == args@.map_values(|s: Symbol| s@),
                        self@ == ExprModel::Predicate(sig@, argviews),
                        i <= args@.len(),
                        tuple@.len() == i,
                        forall|j: int|
                            0 <= j < i ==> (#[trigger] find_atom(state@.atoms, argviews[j])) is Some,
                        forall|j: int|
                            0 <= j < i ==> (#[trigger] tuple@[j])@ == atom_of(
                                state@.atoms,
                                argviews[j],
                            ),
                    decreases args@.len() - i,
                {
                    match state.get_atom(&args[i]) {
                        Some(a) => {
                            tuple.push(a);
                        },
                        None => {
                            proof {
                                assert((#[trigger] find_atom(state@.atoms, argviews[i as int]))
                                    is None);
                                assert(!pred_holds(sig@, argviews, state@));
                            }
                            return false;
                        },
                    }
                    i = i + 1;
                }
                match state.find_bound_index(sig) {
                    None => {
                        proof {
                            assert(!pred_holds(sig@, argviews, state@));
                        }
                        false
                    },
                    Some(bi) => {
                        let stored = &state.bound_predicates[bi].1;
                        let same = eq_atoms(stored, &tuple);
                        proof {
                            assert(state@.bound[sig@] == stored@.map_values(|x: Atom| x@));
                            assert(tuple@.map_values(|x: Atom| x@) =~= Seq::new(
                                argviews.len(),
                                |j: int| atom_of(state@.atoms, argviews[j]) as nat,
                            ));
                        }
                        same
                    },
                }
            },
            LogicExpr::Not(x) => !x.evaluate(state),
            LogicExpr::And(l, r) => l.evaluate(state) && r.evaluate(state),
            LogicExpr::Or(l, r) => l.evaluate(state) || r.evaluate(state),
        }
    }
}

/// The initial truths of a problem: each signature bound here is true of
/// exactly the recorded argument names; everything absent is false.
#[derive(Debug, Clone, PartialEq, Eq)]
pub struct InitialState {
    pub bound_predicates: Vec<(PredicateSignature, Vec<Symbol>)>,
}

impl InitialState {
    /// The bound predicates read as key/value pairs.
    pub open spec fn pairs(self) -> Seq<(SignatureModel, Seq<Seq<char>>)> {
        self.bound_predicates@.map_values(
            |e: (PredicateSignature, Vec<Symbol>)| (e.0@, e.1@.map_values(|s: Symbol| s@)),
        )
    }

    /// Internal consistency: no signature is bound twice.
    pub open spec fn wf(self) -> bool {
        distinct_keys(self.pairs())
    }

    /// An empty initial state.
    pub fn new() -> (r: Self)
        ensures
            r.wf(),
            r@ == Map::<SignatureModel, Seq<Seq<char>>>::empty(),
    {
        InitialState { bound_predicates: Vec::new() }
    }

    /// Finds the position of a bound predicate with exactly this signature.
    fn find_index(&self, signature: &PredicateSignature) -> (r: Option<usize>)
        requires
            self.wf(),
        ensures
            match r {
                Some(i) => i < self.bound_predicates@.len() && self.pairs()[i as int].0
                    == signature@ && self@.contains_key(signature@),
                None => !self@.contains_key(signature@),
            },
    {
        let ghost pairs = self.pairs();
        let mut i: usize = 0;
        while i < self.bound_predicates.len()
            invariant
                self.wf(),
                pairs == self.pairs(),
                i <= self.bound_predicates@.len(),
                forall|j: int| 0 <= j < i ==> (#[trigger] pairs[j]).0 != signature@,
            decreases self.bound_predicates@.len() - i,
        {
            let entry_sig = &self.bound_predicates[i].0;
            if entry_sig.function.0 == signature.function.0 && entry_sig.arity == signature.arity {
                proof {
                    lemma_assoc_map_index(pairs, i as int);
                }
                return Some(i);
            }
            i = i + 1;
        }
        proof {
            lemma_assoc_map_absent(pairs, signature@);
        }
        None
    }

    /// Binds the signature to the given argument names, replacing any
    /// binding it had before.
    pub fn bind_predicate(&mut self, signature: PredicateSignature, args: Vec<Symbol>)
        requires
            old(self).wf(),
        ensures
            final(self).wf(),
            final(self)@ == old(self)@.insert(signature@, args@.map_values(|s: Symbol| s@)),
    {
        let ghost pairs = self.pairs();
        let ghost keyv = signature@;
        let ghost valv = args@.map_values(|s: Symbol| s@);
        match self.find_index(&signature) {
            Some(i) => {
                self.bound_predicates.remove(i);
                let ghost mid = pairs.remove(i as int);
                proof {
                    assert(self.pairs() =~= mid);
                    lemma_assoc_map_remove(pairs, i as int);
                    lemma_distinct_keys_remove(pairs, i as int);
                    assert forall|j: int| 0 <= j < mid.len() implies (#[trigger] mid[j]).0
                        != keyv by {
                        if j < i {
                            assert(mid[j] == pairs[j]);
                        } else {
                            assert(mid[j] == pairs[j + 1]);
                        }
                    }
                    lemma_assoc_map_absent(mid, keyv);
                }
                self.bound_predicates.push((signature, args));
                proof {
                    assert(self.pairs() =~= mid.push((keyv, valv)));
                    lemma_assoc_map_push(mid, keyv, valv);
                    assert(!crate::assoc::has_key(mid, keyv));
                    lemma_distinct_keys_push(mid, keyv, valv);
                    assert(assoc_map(pairs).remove(keyv).insert(keyv, valv) =~= assoc_map(
                        pairs,
                    ).insert(keyv, valv));
                }
            },
            None => {
                self.bound_predicates.push((signature, args));
                proof {
                    assert(self.pairs() =~= pairs.push((keyv, valv)));
                    lemma_assoc_map_push(pairs, keyv, valv);
                    assert forall|j: int| 0 <= j < pairs.len() implies (#[trigger] pairs[j]).0
                        != keyv by {
                        if pairs[j].0 == keyv {
                            lemma_assoc_map_index(pairs, j);
                        }
                    }
                    lemma_distinct_keys_push(pairs, keyv, valv);
                }
            },
        }
    }
}

impl View for InitialState {
    type V = Map<SignatureModel, Seq<Seq<char>>>;

    open spec fn view(&self) -> Map<SignatureModel, Seq<Seq<char>>> {
        assoc_map(self.pairs())
    }
}

impl Default for InitialState {
    /// The same empty initial state that `new` builds.
    fn default() -> (r: Self)
        ensures
            r.wf(),
            r@ == Map::<SignatureModel, Seq<Seq<char>>>::empty(),
    {
        InitialState::new()
    }
}

/// The mathematical content of a planning problem.
pub struct ProblemModel {
    pub max_story_length: nat,
    pub objects: Seq<(Seq<char>, Seq<char>)>,
    pub initial: Map<SignatureModel, Seq<Seq<char>>>,
}

/// A planning problem: a universe of typed objects, the predicates bound
/// true at the start, and a bound on generated story length.
#[derive(Debug, PartialEq, Eq)]
pub struct PredicateProblem {
    /// The largest number of actions a generated story may take.
    pub max_story_length: u32,
    /// The concrete objects of the problem's universe.
    pub objects: Vec<TypedSymbol>,
    /// The predicates true at the start; all others are false.
    pub initial_state: InitialState,
}

impl View for PredicateProblem {
    type V = ProblemModel;

    open spec fn view(&self) -> ProblemModel {
        ProblemModel {
            max_story_length: self.max_story_length as nat,
            objects: self.objects@.map_values(|p: TypedSymbol| p@),
            initial: self.initial_state@,
        }
    }
}

impl PredicateProblem {
    /// Internal consistency: the initial state binds no signature twice.
    pub open spec fn wf(self) -> bool {
        self.initial_state.wf()
    }

    /// An empty problem: no objects, nothing initially true, length zero.
    pub fn new() -> (r: Self)
        ensures
            r.wf(),
            r@.max_story_length == 0,
            r@.objects == Seq::<(Seq<char>, Seq<char>)>::empty(),
            r@.initial == Map::<SignatureModel, Seq<Seq<char>>>::empty(),
    {
        PredicateProblem { max_story_length: 0, objects: Vec::new(), initial_state: InitialState::new() }
    }

    /// Adds an object of a declared type to the problem's universe. Fails
    /// with `UnknownType` if the type is not declared. Objects may share a
    /// name: the list is kept as given.
    pub fn add_object(&mut self, domain: &PredicateDomain, name: Symbol, ty: TypeName) -> (r:
        Result<(), DomainError>)
        requires
            domain.wf(),
            old(self).wf(),
        ensures
            final(self).wf(),
            match r {
                Ok(()) => {
                    &&& domain@.types.contains_key(ty@)
                    &&& final(self)@.objects == old(self)@.objects.push((name@, ty@))
                    &&& final(self)@.initial == old(self)@.initial
                    &&& final(self)@.max_story_length == old(self)@.max_story_length
                },
                Err(DomainError::UnknownType(t)) => t@ == ty@ && !domain@.types.contains_key(ty@)
                    && *final(self) == *old(self),
                Err(_) => false,
            },
    {
        if domain.find_type_index(&ty).is_none() {
            return Err(DomainError::UnknownType(ty));
        }
        self.objects.push(TypedSymbol { name, ty });
        proof {
            assert(self@.objects =~= old(self)@.objects.push(
                (self.objects@.last().name@, self.objects@.last().ty@),
            ));
        }
        Ok(())
    }

    /// Binds a predicate into the problem's initial state, replacing any
    /// binding the signature had. The binding is validated against the
    /// domain first: the signature must be registered, the argument count
    /// must equal its arity, and each argument must name one of the
    /// problem's objects or a registered constant.
    pub fn bind_predicate(
        &mut self,
        domain: &PredicateDomain,
        signature: PredicateSignature,
        args: Vec<Symbol>,
    ) -> (r: Result<(), DomainError>)
        requires
            domain.wf(),
            old(self).wf(),
        ensures
            final(self).wf(),
            match r {
                Ok(()) => {
                    &&& sig_defined(signature@, domain@.predicates)
                    &&& args@.len() == signature.arity as nat
                    &&& first_unresolved(
                        args@.map_values(|s: Symbol| s@),
                        domain@.constants.dom(),
                        param_names(old(self)@.objects),
                    ) is None
                    &&& final(self)@.initial == old(self)@.initial.insert(
                        signature@,
                        args@.map_values(|s: Symbol| s@),
                    )
                    &&& final(self)@.objects == old(self)@.objects
                    &&& final(self)@.max_story_length == old(self)@.max_story_length
                },
                Err(DomainError::UnknownPredicate(f)) => f@ == signature.function@ && !sig_defined(
                    signature@,
                    domain@.predicates,
                ) && *final(self) == *old(self),
                Err(DomainError::ArityMismatch) => {
                    &&& sig_defined(signature@, domain@.predicates)
                    &&& args@.len() != signature.arity as nat
                    &&& *final(self) == *old(self)
                },
                Err(DomainError::UnboundVariable(s)) => {
                    &&& sig_defined(signature@, domain@.predicates)
                    &&& args@.len() == signature.arity as nat
                    &&& first_unresolved(
                        args@.map_values(|s2: Symbol| s2@),
                        domain@.constants.dom(),
                        param_names(old(self)@.objects),
                    ) == Some(s@)
                    &&& *final(self) == *old(self)
                },
                Err(_) => false,
            },
    {
        let ghost argviews = args@.map_values(|s: Symbol| s@);
        let ghost consts = domain@.constants.dom();
        let ghost objnames = param_names(self@.objects);
        let defined = match domain.find_predicate_index(&signature.function) {
            Some(pi) => domain.predicates[pi].0.arity == signature.arity,
            None => false,
        };
        if !defined {
            let f = signature.function.clone();
            return Err(DomainError::UnknownPredicate(f));
        }
        if args.len() != signature.arity as usize {
            return Err(DomainError::ArityMismatch);
        }
        let mut i: usize = 0;
        while i < args.len()
            invariant
                *self == *old(self),
                self.wf(),
                domain.wf(),
                argviews == args@.map_values(|s: Symbol| s@),
                consts == domain@.constants.dom(),
                objnames == param_names(self@.objects),
                sig_defined(signature@, domain@.predicates),
                args@.len() == signature.arity as nat,
                i <= args@.len(),
                forall|j: int|
                    0 <= j < i ==> objnames.contains(#[trigger] argviews[j]) || consts.contains(
                        argviews[j],
                    ),
            decreases args@.len() - i,
        {
            let in_objects = contains_object(&self.objects, &args[i]);
            let is_const = domain.find_constant_index(&args[i]).is_some();
            if !in_objects && !is_const {
                proof {
                    lemma_first_unresolved_at(argviews, consts, objnames, i as int);
                }
                let s = args[i].clone();
                return Err(DomainError::UnboundVariable(s));
            }
            i = i + 1;
        }
        proof {
            lemma_first_unresolved_none(argviews, consts, objnames);
        }
        self.initial_state.bind_predicate(signature, args);
        Ok(())
    }
}

impl Default for PredicateProblem {
    /// The same empty problem that `new` builds.
    fn default() -> (r: Self)
        ensures
            r.wf(),
            r@.max_story_length == 0,
            r@.objects == Seq::<(Seq<char>, Seq<char>)>::empty(),
            r@.initial == Map::<SignatureModel, Seq<Seq<char>>>::empty(),
    {
        PredicateProblem::new()
    }
}

/// Whether the object list holds an object of the given name.
fn contains_object(v: &Vec<TypedSymbol>, x: &Symbol) -> (r: bool)
    ensures
        r == param_names(v@.map_values(|p: TypedSymbol| p@)).contains(x@),
{
    let ghost pview = v@.map_values(|p: TypedSymbol| p@);
    let mut i: usize = 0;
    while i < v.len()
        invariant
            pview == v@.map_values(|p: TypedSymbol| p@),
            i <= v@.len(),
            forall|j: int| 0 <= j < i ==> (#[trigger] pview[j]).0 != x@,
        decreases v@.len() - i,
    {
        if v[i].name.0 == x.0 {
            proof {
                assert((#[trigger] pview[i as int]).0 == x@);
            }
            return true;
        }
        i = i + 1;
    }
    false
}

} // verus!
