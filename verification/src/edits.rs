use vstd::prelude::*;
use vstd::pervasive::VecAdditionalExecFns;

use crate::expr::ExprModel;
use crate::expr::LogicExpr;
use crate::symbols::PredicateSignature;
use crate::symbols::SignatureModel;
use crate::symbols::Symbol;

verus! {

/// One edit of a logic expression tree, to be applied at a chosen position.
/// Each edit is meaningful on one node shape only: an insertion replaces a
/// `True` placeholder, an unwrap hoists a child over its connective, and
/// `Delete` resets any node to `True`.
#[derive(Debug)]
pub enum ExprEdit {
    /// On `True`: become an application of the signature, with one
    /// empty-named argument slot per arity position.
    MakePredicate(PredicateSignature),
    /// On `True`: become `Not(True)`.
    InsertNot,
    /// On `True`: become `And(True, True)`.
    InsertAnd,
    /// On `True`: become `Or(True, True)`.
    InsertOr,
    /// On a predicate: change the signature in place, keeping the
    /// arguments as they are.
    SetSignature(PredicateSignature),
    /// On a predicate: replace the argument at the given position.
    SetArgument(usize, Symbol),
    /// On a conjunction: keep both children, become a disjunction.
    ConvertToOr,
    /// On a negation: become the child.
    UnwrapNot,
    /// On a conjunction: become the left child.
    UnwrapLeft,
    /// On a conjunction: become the right child.
    UnwrapRight,
    /// On any node: become `True`.
    Delete,
}

/// The mathematical shape of an edit.
pub enum EditModel {
    MakePredicate(SignatureModel),
    InsertNot,
    InsertAnd,
    InsertOr,
    SetSignature(SignatureModel),
    SetArgument(int, Seq<char>),
    ConvertToOr,
    UnwrapNot,
    UnwrapLeft,
    UnwrapRight,
    Delete,
}

impl View for ExprEdit {
    type V = EditModel;

    open spec fn view(&self) -> EditModel {
        match *self {
            ExprEdit::MakePredicate(ref sig) => EditModel::MakePredicate(sig@),
            ExprEdit::InsertNot => EditModel::InsertNot,
            ExprEdit::InsertAnd => EditModel::InsertAnd,
            ExprEdit::InsertOr => EditModel::InsertOr,
            ExprEdit::SetSignature(ref sig) => EditModel::SetSignature(sig@),
            ExprEdit::SetArgument(i, ref s) => EditModel::SetArgument(i as int, s@),
            ExprEdit::ConvertToOr => EditModel::ConvertToOr,
            ExprEdit::UnwrapNot => EditModel::UnwrapNot,
            ExprEdit::UnwrapLeft => EditModel::UnwrapLeft,
            ExprEdit::UnwrapRight => EditModel::UnwrapRight,
            ExprEdit::Delete => EditModel::Delete,
        }
    }
}

/// What an edit does to the node it addresses, or nothing where the edit
/// does not fit the node's shape.
pub open spec fn apply_edit_here(e: ExprModel, edit: EditModel) -> Option<ExprModel> {
    match edit {
        EditModel::MakePredicate(sig) => match e {
            ExprModel::True => Some(
                ExprModel::Predicate(
                    sig,
                    Seq::new(sig.arity as nat, |i: int| Seq::<char>::empty()),
                ),
            ),
            _ => None,
        },
        EditModel::InsertNot => match e {
            ExprModel::True => Some(ExprModel::Not(Box::new(ExprModel::True))),
            _ => None,
        },
        EditModel::InsertAnd => match e {
            ExprModel::True => Some(
                ExprModel::And(Box::new(ExprModel::True), Box::new(ExprModel::True)),
            ),
            _ => None,
        },
        EditModel::InsertOr => match e {
            ExprModel::True => Some(
                ExprModel::Or(Box::new(ExprModel::True), Box::new(ExprModel::True)),
            ),
            _ => None,
        },
        EditModel::SetSignature(sig) => match e {
            ExprModel::Predicate(_old, args) => Some(ExprModel::Predicate(sig, args)),
            _ => None,
        },
        EditModel::SetArgument(i, s) => match e {
            ExprModel::Predicate(sig, args) => if 0 <= i < args.len() {
                Some(ExprModel::Predicate(sig, args.update(i, s)))
            } else {
                None
            },
            _ => None,
        },
        EditModel::ConvertToOr => match e {
            ExprModel::And(l, r) => Some(ExprModel::Or(l, r)),
            _ => None,
        },
        EditModel::UnwrapNot => match e {
            ExprModel::Not(x) => Some(*x),
            _ => None,
        },
        EditModel::UnwrapLeft => match e {
            ExprModel::And(l, _r) => Some(*l),
            _ => None,
        },
        EditModel::UnwrapRight => match e {
            ExprModel::And(_l, r) => Some(*r),
            _ => None,
        },
        EditModel::Delete => Some(ExprModel::True),
    }
}

/// What an edit does to the node a path addresses: the tree with that node
/// rewritten, everything else kept; nothing where the path leaves the tree
/// or the edit does not fit the addressed node. A path step of zero goes to
/// a node's only or left child, a step of one to its right child.
pub open spec fn apply_edit_at(e: ExprModel, path: Seq<int>, edit: EditModel) -> Option<ExprModel>
    decreases path.len(),
{
    if path.len() == 0 {
        apply_edit_here(e, edit)
    } else {
        let step = path[0];
        let rest = path.drop_first();
        match e {
            ExprModel::Not(x) => if step == 0 {
                match apply_edit_at(*x, rest, edit) {
                    Some(nx) => Some(ExprModel::Not(Box::new(nx))),
                    None => None,
                }
            } else {
                None
            },
            ExprModel::And(l, r) => if step == 0 {
                match apply_edit_at(*l, rest, edit) {
                    Some(nl) => Some(ExprModel::And(Box::new(nl), r)),
                    None => None,
                }
            } else if step == 1 {
                match apply_edit_at(*r, rest, edit) {
                    Some(nr) => Some(ExprModel::And(l, Box::new(nr))),
                    None => None,
                }
            } else {
                None
            },
            ExprModel::Or(l, r) => if step == 0 {
                match apply_edit_at(*l, rest, edit) {
                    Some(nl) => Some(ExprModel::Or(Box::new(nl), r)),
                    None => None,
                }
            } else if step == 1 {
                match apply_edit_at(*r, rest, edit) {
                    Some(nr) => Some(ExprModel::Or(l, Box::new(nr))),
                    None => None,
                }
            } else {
                None
            },
            _ => None,
        }
    }
}

impl LogicExpr {
    /// Applies an edit to the node this path addresses and returns the
    /// rebuilt tree, leaving this tree untouched: every edit is a pure
    /// rebuild, safe to drive one edit per interaction. Returns nothing
    /// where the path leaves the tree or the edit does not fit the
    /// addressed node.
    pub fn apply_edit(&self, path: &Vec<usize>, edit: &ExprEdit) -> (r: Option<LogicExpr>)
        ensures
            match r {
                Some(ne) => apply_edit_at(
                    self@,
                    path@.map_values(|u: usize| u as int),
                    edit@,
                ) == Some(ne@),
                None => apply_edit_at(self@, path@.map_values(|u: usize| u as int), edit@)
                    is None,
            },
    {
        let r = self.apply_edit_from(path, 0, edit);
        proof {
            assert(path@.map_values(|u: usize| u as int).skip(0) =~= path@.map_values(
                |u: usize| u as int,
            ));
        }
        r
    }

    /// Applies the edit at the part of the path from position `pos` on.
    fn apply_edit_from(&self, path: &Vec<usize>, pos: usize, edit: &ExprEdit) -> (r: Option<
        LogicExpr,
    >)
        requires
            pos <= path@.len(),
        ensures
            match r {
                Some(ne) => apply_edit_at(
                    self@,
                    path@.map_values(|u: usize| u as int).skip(pos as int),
                    edit@,
                ) == Some(ne@),
                None => apply_edit_at(
                    self@,
                    path@.map_values(|u: usize| u as int).skip(pos as int),
                    edit@,
                ) is None,
            },
        decreases path@.len() - pos,
    {
        let ghost tail = path@.map_values(|u: usize| u as int).skip(pos as int);
        if pos == path.len() {
            return self.apply_edit_here_node(edit);
        }
        let step = path[pos];
        proof {
            assert(tail[0] == step as int);
            assert(tail.drop_first() =~= path@.map_values(|u: usize| u as int).skip(
                pos as int + 1,
            ));
        }
        match self {
            LogicExpr::Not(x) => if step == 0 {
                match x.apply_edit_from(path, pos + 1, edit) {
                    Some(nx) => Some(LogicExpr::Not(Box::new(nx))),
                    None => None,
                }
            } else {
                None
            },
            LogicExpr::And(l, r) => if step == 0 {
                match l.apply_edit_from(path, pos + 1, edit) {
                    Some(nl) => Some(LogicExpr::And(Box::new(nl), Box::new((**r).clone()))),
                    None => None,
                }
            } else if step == 1 {
                match r.apply_edit_from(path, pos + 1, edit) {
                    Some(nr) => Some(LogicExpr::And(Box::new((**l).clone()), Box::new(nr))),
                    None => None,
                }
            } else {
                None
            },
            LogicExpr::Or(l, r) => if step == 0 {
                match l.apply_edit_from(path, pos + 1, edit) {
                    Some(nl) => Some(LogicExpr::Or(Box::new(nl), Box::new((**r).clone()))),
                    None => None,
                }
            } else if step == 1 {
                match r.apply_edit_from(path, pos + 1, edit) {
                    Some(nr) => Some(LogicExpr::Or(Box::new((**l).clone()), Box::new(nr))),
                    None => None,
                }
            } else {
                None
            },
            _ => None,
        }
    }

    /// Applies the edit to this node itself.
    fn apply_edit_here_node(&self, edit: &ExprEdit) -> (r: Option<LogicExpr>)
        ensures
            match r {
                Some(ne) => apply_edit_here(self@, edit@) == Some(ne@),
                None => apply_edit_here(self@, edit@) is None,
            },
    {
        match edit {
            ExprEdit::MakePredicate(sig) => match self {
                LogicExpr::True => {
                    let mut args: Vec<Symbol> = Vec::new();
                    let mut i: usize = 0;
                    while i < sig.arity as usize
                        invariant
                            i <= sig.arity as usize,
                            args@.len() == i,
                            forall|j: int|
                                0 <= j < i ==> (#[trigger] args@[j])@ == Seq::<char>::empty(),
                        decreases sig.arity as usize - i,
                    {
                        args.push(Symbol(String::new()));
                        i = i + 1;
                    }
                    proof {
                        assert(args@.map_values(|s: Symbol| s@) =~= Seq::new(
                            sig@.arity,
                            |j: int| Seq::<char>::empty(),
                        ));
                    }
                    Some(LogicExpr::Predicate(sig.clone(), args))
                },
                _ => None,
            },
            ExprEdit::InsertNot => match self {
                LogicExpr::True => Some(LogicExpr::Not(Box::new(LogicExpr::True))),
                _ => None,
            },
            ExprEdit::InsertAnd => match self {
                LogicExpr::True => Some(
                    LogicExpr::And(Box::new(LogicExpr::True), Box::new(LogicExpr::True)),
                ),
                _ => None,
            },
            ExprEdit::InsertOr => match self {
                LogicExpr::True => Some(
                    LogicExpr::Or(Box::new(LogicExpr::True), Box::new(LogicExpr::True)),
                ),
                _ => None,
            },
            ExprEdit::SetSignature(sig) => match self {
                LogicExpr::Predicate(_old, args) => {
                    let new_args = args.clone();
                    proof {
                        assert(new_args@ =~= args@);
                    }
                    Some(LogicExpr::Predicate(sig.clone(), new_args))
                },
                _ => None,
            },
            ExprEdit::SetArgument(i, s) => match self {
                LogicExpr::Predicate(sig, args) => if *i < args.len() {
                    let mut new_args = args.clone();
                    proof {
                        assert(new_args@ =~= args@);
                    }
                    new_args.set(*i, s.clone());
                    proof {
                        assert(new_args@.map_values(|x: Symbol| x@) =~= args@.map_values(
                            |x: Symbol| x@,
                        ).update(*i as int, s@));
                    }
                    Some(LogicExpr::Predicate(sig.clone(), new_args))
                } else {
                    None
                },
                _ => None,
            },
            ExprEdit::ConvertToOr => match self {
                LogicExpr::And(l, r) => Some(
                    LogicExpr::Or(Box::new((**l).clone()), Box::new((**r).clone())),
                ),
                _ => None,
            },
            ExprEdit::UnwrapNot => match self {
                LogicExpr::Not(x) => Some((**x).clone()),
                _ => None,
            },
            ExprEdit::UnwrapLeft => match self {
                LogicExpr::And(l, _r) => Some((**l).clone()),
                _ => None,
            },
            ExprEdit::UnwrapRight => match self {
                LogicExpr::And(_l, r) => Some((**r).clone()),
                _ => None,
            },
            ExprEdit::Delete => Some(LogicExpr::True),
        }
    }
}

} // verus!
