use vstd::prelude::*;

verus! {

/// An interned name string: a type name, predicate name, variable name, or
/// constant name. Equality is by value.
#[derive(Debug, PartialEq, Eq, Hash)]
pub struct Symbol(pub String);

impl View for Symbol {
    type V = Seq<char>;

    open spec fn view(&self) -> Seq<char> {
        self.0@
    }
}

impl Clone for Symbol {
    fn clone(&self) -> (r: Self)
        ensures
            r == *self,
    {
        Symbol(self.0.clone())
    }
}

impl Symbol {
    /// Builds a symbol from borrowed text.
    pub fn from_str(s: &str) -> (r: Self)
        ensures
            r@ == s@,
    {
        Symbol(s.to_owned())
    }
}

/// A declared type identifier, kept in a namespace of its own: a type name
/// and a general symbol are never the same value, even over the same text.
#[derive(Debug, PartialEq, Eq, Hash)]
pub struct TypeName(pub String);

impl View for TypeName {
    type V = Seq<char>;

    open spec fn view(&self) -> Seq<char> {
        self.0@
    }
}

impl Clone for TypeName {
    fn clone(&self) -> (r: Self)
        ensures
            r == *self,
    {
        TypeName(self.0.clone())
    }
}

impl TypeName {
    /// Builds a type name from borrowed text.
    pub fn from_str(s: &str) -> (r: Self)
        ensures
            r@ == s@,
    {
        TypeName(s.to_owned())
    }
}

/// A name together with its declared type. Equality and hashing go by the
/// whole pair, name and type alike.
#[derive(Debug, PartialEq, Eq, Hash)]
pub struct TypedSymbol {
    pub name: Symbol,
    pub ty: TypeName,
}

impl View for TypedSymbol {
    type V = (Seq<char>, Seq<char>);

    open spec fn view(&self) -> (Seq<char>, Seq<char>) {
        (self.name@, self.ty@)
    }
}

impl Clone for TypedSymbol {
    fn clone(&self) -> (r: Self)
        ensures
            r == *self,
    {
        TypedSymbol { name: self.name.clone(), ty: self.ty.clone() }
    }
}

/// Whether some element of `s` reads as the name `n`.
pub open spec fn seq_has_name<T: View<V = Seq<char>>>(s: Seq<T>, n: Seq<char>) -> bool {
    exists|i: int| 0 <= i < s.len() && (#[trigger] s[i])@ == n
}

/// A name found in a sequence is still found after an append.
pub proof fn lemma_has_name_push<T: View<V = Seq<char>>>(s: Seq<T>, x: T, n: Seq<char>)
    ensures
        seq_has_name(s, n) ==> seq_has_name(s.push(x), n),
{
    if seq_has_name(s, n) {
        let i = choose|i: int| 0 <= i < s.len() && (#[trigger] s[i])@ == n;
        assert((#[trigger] s.push(x)[i])@ == n);
    }
}

/// The set of names that the elements of `s` read as.
pub open spec fn name_set<T: View<V = Seq<char>>>(s: Seq<T>) -> Set<Seq<char>> {
    Set::new(|n: Seq<char>| seq_has_name(s, n))
}

/// The mathematical identity of a predicate: its function symbol as a
/// character sequence, and its arity as an unbounded natural.
pub struct SignatureModel {
    pub function: Seq<char>,
    pub arity: nat,
}

/// A predicate's unique identity: a function symbol together with the number
/// of arguments it is applied to. Two registered predicates never share a
/// function symbol.
#[derive(Debug, PartialEq, Eq, Hash)]
pub struct PredicateSignature {
    pub function: Symbol,
    pub arity: u32,
}

impl View for PredicateSignature {
    type V = SignatureModel;

    open spec fn view(&self) -> SignatureModel {
        SignatureModel { function: self.function@, arity: self.arity as nat }
    }
}

impl Clone for PredicateSignature {
    fn clone(&self) -> (r: Self)
        ensures
            r == *self,
    {
        PredicateSignature { function: self.function.clone(), arity: self.arity }
    }
}

impl PredicateSignature {
    pub fn new(function: Symbol, arity: u32) -> (r: Self)
        ensures
            r.function == function,
            r.arity == arity,
    {
        PredicateSignature { function, arity }
    }
}

/// A type name together with the names of its direct supertypes.
#[derive(Debug, PartialEq, Eq)]
pub struct TypeSignature {
    pub name: Symbol,
    pub supertype: Vec<Symbol>,
}

/// How an argument symbol of a predicate application resolves: either a
/// variable bound in the surrounding scope, or a registered constant.
#[derive(Debug, PartialEq, Eq, Hash)]
pub enum VariableOrConstant {
    Variable(TypedSymbol),
    Constant(Symbol),
}

} // verus!
