//! A typed predicate-logic domain model: interned symbols, a type registry
//! with supertype relationships, a predicate registry, boolean logic
//! expressions over predicates with validation, substitution and evaluation,
//! parameterized actions, and a ground-fact story state.
//!
//! The library holds no I/O and no rendering: an external caller builds and
//! edits these structures through the checked operations offered here.

pub mod assoc;
pub mod cutout;
pub mod domain;
pub mod edits;
pub mod expr;
pub mod state;
pub mod subtype;
pub mod symbols;

pub use cutout::CutoutDomain;
pub use cutout::CutoutStory;
pub use domain::Action;
pub use domain::DomainError;
pub use domain::PredicateDomain;
pub use domain::PredicateStory;
pub use edits::ExprEdit;
pub use expr::ExprError;
pub use expr::ExprModel;
pub use expr::LogicExpr;
pub use state::Atom;
pub use state::InitialState;
pub use state::PredicateProblem;
pub use state::StoryState;
pub use symbols::PredicateSignature;
pub use symbols::SignatureModel;
pub use symbols::Symbol;
pub use symbols::TypeName;
pub use symbols::TypeSignature;
pub use symbols::TypedSymbol;
pub use symbols::VariableOrConstant;
