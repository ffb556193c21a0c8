use vstd::prelude::*;
use vstd::seq_lib::seq_to_set_is_finite;
use vstd::set_lib::lemma_len_subset;

use crate::domain::PredicateDomain;
use crate::symbols::TypeName;
use crate::symbols::lemma_has_name_push;
use crate::symbols::seq_has_name;

verus! {

/// `p` is a chain of supertype edges leading from `a` to `b`: it starts at
/// `a`, ends at `b`, and each step goes from a declared type to one of its
/// direct supertypes. A chain of length one asks for no edge at all.
pub open spec fn subtype_path(
    types: Map<Seq<char>, Seq<Seq<char>>>,
    p: Seq<Seq<char>>,
    a: Seq<char>,
    b: Seq<char>,
) -> bool {
    &&& p.len() >= 1
    &&& p[0] == a
    &&& p.last() == b
    &&& forall|i: int|
        0 <= i < p.len() - 1 ==> types.contains_key(#[trigger] p[i]) && types[p[i]].contains(
            p[i + 1],
        )
}

/// The reflexive-transitive closure of the direct-supertype relation:
/// `a` is a subtype of `b` when some chain of supertype edges joins them.
pub open spec fn subtype_of(
    types: Map<Seq<char>, Seq<Seq<char>>>,
    a: Seq<char>,
    b: Seq<char>,
) -> bool {
    exists|p: Seq<Seq<char>>| subtype_path(types, p, a, b)
}

/// Every type is a subtype of itself: the one-element chain witnesses it.
pub proof fn lemma_subtype_reflexive(types: Map<Seq<char>, Seq<Seq<char>>>, t: Seq<char>)
    ensures
        subtype_of(types, t, t),
{
    assert(subtype_path(types, seq![t], t, t));
}

/// A subtype chain extends along one more supertype edge.
pub proof fn lemma_subtype_step(
    types: Map<Seq<char>, Seq<Seq<char>>>,
    a: Seq<char>,
    t: Seq<char>,
    s: Seq<char>,
)
    requires
        subtype_of(types, a, t),
        types.contains_key(t),
        types[t].contains(s),
    ensures
        subtype_of(types, a, s),
{
    let p = choose|p: Seq<Seq<char>>| subtype_path(types, p, a, t);
    let q = p.push(s);
    assert forall|i: int| 0 <= i < q.len() - 1 implies types.contains_key(#[trigger] q[i])
        && types[q[i]].contains(q[i + 1]) by {
        if i < p.len() - 1 {
            assert(q[i] == p[i] && q[i + 1] == p[i + 1]);
        } else {
            assert(q[i] == p.last() && q[i + 1] == s);
        }
    }
    assert(subtype_path(types, q, a, s));
}

/// A set of names closed under the supertype edges and holding the start of
/// a chain holds its end as well.
proof fn lemma_closure_reaches(
    types: Map<Seq<char>, Seq<Seq<char>>>,
    vis: Set<Seq<char>>,
    p: Seq<Seq<char>>,
    a: Seq<char>,
    b: Seq<char>,
)
    requires
        subtype_path(types, p, a, b),
        vis.contains(a),
        forall|t: Seq<char>, s: Seq<char>|
            #![trigger vis.contains(t), types[t].contains(s)]
            vis.contains(t) && types.contains_key(t) && types[t].contains(s) ==> vis.contains(s),
    ensures
        vis.contains(b),
    decreases p.len(),
{
    if p.len() == 1 {
        assert(b == a);
    } else {
        assert(types.contains_key(p[0]) && types[p[0]].contains(p[1]));
        assert(vis.contains(p[1]));
        let q = p.drop_first();
        assert forall|i: int| 0 <= i < q.len() - 1 implies types.contains_key(#[trigger] q[i])
            && types[q[i]].contains(q[i + 1]) by {
            assert(q[i] == p[i + 1] && q[i + 1] == p[i + 2]);
        }
        assert(subtype_path(types, q, p[1], b));
        lemma_closure_reaches(types, vis, q, p[1], b);
    }
}

/// All supertype names that the type registry pairs mention, in order.
pub open spec fn sup_names(pairs: Seq<(Seq<char>, Seq<Seq<char>>)>) -> Seq<Seq<char>>
    decreases pairs.len(),
{
    if pairs.len() == 0 {
        Seq::empty()
    } else {
        sup_names(pairs.drop_last()) + pairs.last().1
    }
}

/// Each supertype name of each entry occurs among `sup_names`.
proof fn lemma_sup_names_contains(pairs: Seq<(Seq<char>, Seq<Seq<char>>)>, i: int, j: int)
    requires
        0 <= i < pairs.len(),
        0 <= j < pairs[i].1.len(),
    ensures
        sup_names(pairs).contains(pairs[i].1[j]),
    decreases pairs.len(),
{
    if i == pairs.len() - 1 {
        assert(sup_names(pairs)[sup_names(pairs.drop_last()).len() + j] == pairs[i].1[j]);
    } else {
        lemma_sup_names_contains(pairs.drop_last(), i, j);
        assert(pairs.drop_last()[i] == pairs[i]);
        let idx = choose|idx: int|
            0 <= idx < sup_names(pairs.drop_last()).len() && sup_names(pairs.drop_last())[idx]
                == pairs[i].1[j];
        assert(sup_names(pairs)[idx] == pairs[i].1[j]);
    }
}

/// A list of pairwise distinct names drawn from `allowed` is no longer than
/// the number of distinct names `allowed` holds.
proof fn lemma_visited_bound(visited: Seq<TypeName>, allowed: Seq<Seq<char>>)
    requires
        forall|i: int, j: int|
            0 <= i < j < visited.len() ==> (#[trigger] visited[i])@ != (#[trigger] visited[j])@,
        forall|i: int| 0 <= i < visited.len() ==> allowed.contains((#[trigger] visited[i])@),
    ensures
        visited.len() <= allowed.to_set().len(),
{
    broadcast use seq_to_set_is_finite;

    let vs = visited.map_values(|t: TypeName| t@);
    assert(vs.no_duplicates());
    vs.unique_seq_to_set();
    assert forall|x: Seq<char>| vs.to_set().contains(x) implies allowed.to_set().contains(x) by {
        let i = choose|i: int| 0 <= i < vs.len() && vs[i] == x;
        assert((#[trigger] visited[i])@ == x);
    }
    lemma_len_subset(vs.to_set(), allowed.to_set());
}

impl PredicateDomain {
    /// Whether `a` is a subtype of `b` under the declared supertype
    /// relation: the reflexive-transitive closure of the direct edges. The
    /// search visits each declared name at most once, so it terminates even
    /// if removals have left dangling or circular supertype references.
    pub fn is_subtype(&self, a: &TypeName, b: &TypeName) -> (r: bool)
        requires
            self.wf(),
        ensures
            r == subtype_of(self@.types, a@, b@),
    {
        let ghost typesm = self@.types;
        let ghost pairs = self.type_pairs();
        if a.0 == b.0 {
            proof {
                lemma_subtype_reflexive(typesm, a@);
            }
            return true;
        }
        let ghost allowed: Seq<Seq<char>> = seq![a@] + sup_names(pairs);
        let ghost capn = allowed.to_set().len();
        let mut visited: Vec<TypeName> = Vec::new();
        visited.push(a.clone());
        proof {
            assert(allowed[0] == a@);
            assert(allowed.contains(a@));
            lemma_subtype_reflexive(typesm, a@);
            lemma_visited_bound(visited@, allowed);
        }
        let mut k: usize = 0;
        while k < visited.len()
            invariant
                self.wf(),
                typesm == self@.types,
                pairs == self.type_pairs(),
                allowed == seq![a@] + sup_names(pairs),
                capn == allowed.to_set().len(),
                a@ != b@,
                visited@.len() >= 1,
                visited@[0]@ == a@,
                k <= visited@.len(),
                visited@.len() <= capn,
                forall|i: int, j: int|
                    0 <= i < j < visited@.len() ==> (#[trigger] visited@[i])@ != (
                    #[trigger] visited@[j])@,
                forall|i: int| 0 <= i < visited@.len() ==> allowed.contains((#[trigger] visited@[i])@),
                forall|i: int|
                    0 <= i < visited@.len() ==> subtype_of(typesm, a@, (#[trigger] visited@[i])@),
                forall|i: int| 0 <= i < visited@.len() ==> (#[trigger] visited@[i])@ != b@,
                forall|i: int, s: Seq<char>|
                    #![trigger typesm[(visited@[i])@].contains(s)]
                    0 <= i < k && typesm.contains_key(visited@[i]@) && typesm[visited@[i]@].contains(
                        s,
                    ) ==> seq_has_name(visited@, s),
            decreases capn - k,
        {
            let t = visited[k].clone();
            match self.find_type_index(&t) {
                Some(ti) => {
                    let sups = &self.types[ti].1;
                    let ghost supviews = sups@.map_values(|x: TypeName| x@);
                    proof {
                        assert(typesm[t@] == supviews);
                    }
                    let mut j: usize = 0;
                    while j < sups.len()
                        invariant
                            self.wf(),
                            typesm == self@.types,
                            pairs == self.type_pairs(),
                            allowed == seq![a@] + sup_names(pairs),
                            capn == allowed.to_set().len(),
                            a@ != b@,
                            visited@.len() >= 1,
                            visited@[0]@ == a@,
                            k < visited@.len(),
                            visited@.len() <= capn,
                            t@ == visited@[k as int]@,
                            ti < pairs.len(),
                            pairs[ti as int].1 == supviews,
                            supviews == sups@.map_values(|x: TypeName| x@),
                            typesm.contains_key(t@),
                            typesm[t@] == supviews,
                            j <= sups@.len(),
                            forall|i: int, jj: int|
                                0 <= i < jj < visited@.len() ==> (#[trigger] visited@[i])@ != (
                                #[trigger] visited@[jj])@,
                            forall|i: int|
                                0 <= i < visited@.len() ==> allowed.contains(
                                    (#[trigger] visited@[i])@,
                                ),
                            forall|i: int|
                                0 <= i < visited@.len() ==> subtype_of(
                                    typesm,
                                    a@,
                                    (#[trigger] visited@[i])@,
                                ),
                            forall|i: int| 0 <= i < visited@.len() ==> (#[trigger] visited@[i])@ != b@,
                            forall|i: int, s: Seq<char>|
                                #![trigger typesm[(visited@[i])@].contains(s)]
                                0 <= i < k && typesm.contains_key(visited@[i]@)
                                    && typesm[visited@[i]@].contains(s) ==> seq_has_name(visited@, s),
                            forall|jj: int|
                                0 <= jj < j ==> seq_has_name(visited@, (#[trigger] sups@[jj])@),
                        decreases sups@.len() - j,
                    {
                        let ghost old_visited = visited@;
                        if sups[j].0 == b.0 {
                            proof {
                                assert(typesm[t@][j as int] == sups@[j as int]@);
                                assert(typesm[t@].contains(sups@[j as int]@));
                                lemma_subtype_step(typesm, a@, t@, sups@[j as int]@);
                            }
                            return true;
                        }
                        if !contains_name(&visited, &sups[j]) {
                            visited.push(sups[j].clone());
                            proof {
                                let sv = sups@[j as int]@;
                                assert(visited@ == old_visited.push(sups@[j as int]));
                                assert(visited@.last()@ == sv);
                                // the new name is allowed
                                lemma_sup_names_contains(pairs, ti as int, j as int);
                                let idx = choose|idx: int|
                                    0 <= idx < sup_names(pairs).len() && sup_names(pairs)[idx] == sv;
                                assert(allowed[1 + idx] == sv);
                                assert(allowed.contains(sv));
                                // the new name is reachable
                                assert(typesm[t@][j as int] == sv);
                                assert(typesm[t@].contains(sv));
                                lemma_subtype_step(typesm, a@, t@, sv);
                                // names already found stay found
                                assert forall|i: int, s: Seq<char>|
                                    #![trigger typesm[(visited@[i])@].contains(s)]
                                    0 <= i < k && typesm.contains_key(visited@[i]@)
                                        && typesm[visited@[i]@].contains(s) implies seq_has_name(
                                    visited@,
                                    s,
                                ) by {
                                    assert(visited@[i] == old_visited[i]);
                                    assert(seq_has_name(old_visited, s));
                                    lemma_has_name_push(old_visited, visited@.last(), s);
                                }
                                assert forall|jj: int| 0 <= jj < j + 1 implies seq_has_name(
                                    visited@,
                                    (#[trigger] sups@[jj])@,
                                ) by {
                                    if jj < j {
                                        lemma_has_name_push(old_visited, visited@.last(), sups@[jj]@);
                                    } else {
                                        assert(visited@.last()@ == sups@[jj]@);
                                    }
                                }
                                lemma_visited_bound(visited@, allowed);
                            }
                        } else {
                            proof {
                                assert(seq_has_name(visited@, sups@[j as int]@));
                            }
                        }
                        j = j + 1;
                    }
                    proof {
                        assert forall|s: Seq<char>| typesm[t@].contains(s) implies seq_has_name(
                            visited@,
                            s,
                        ) by {
                            let jj = choose|jj: int|
                                0 <= jj < typesm[t@].len() && typesm[t@][jj] == s;
                            assert(sups@[jj]@ == s);
                        }
                    }
                },
                None => {},
            }
            k = k + 1;
        }
        proof {
            let vis = Set::new(|n: Seq<char>| seq_has_name(visited@, n));
            assert(vis.contains(a@)) by {
                assert((#[trigger] visited@[0])@ == a@);
            }
            if subtype_of(typesm, a@, b@) {
                let p = choose|p: Seq<Seq<char>>| subtype_path(typesm, p, a@, b@);
                assert forall|t: Seq<char>, s: Seq<char>|
                    #![trigger vis.contains(t), typesm[t].contains(s)]
                    vis.contains(t) && typesm.contains_key(t) && typesm[t].contains(s) implies
                vis.contains(s) by {
                    let i = choose|i: int| 0 <= i < visited@.len() && (#[trigger] visited@[i])@ == t;
                    assert(typesm[(visited@[i])@].contains(s));
                    assert(seq_has_name(visited@, s));
                }
                lemma_closure_reaches(typesm, vis, p, a@, b@);
                assert(seq_has_name(visited@, b@));
                let i = choose|i: int| 0 <= i < visited@.len() && (#[trigger] visited@[i])@ == b@;
                assert(false);
            }
        }
        false
    }
}

/// Whether the list holds a type of the given name.
fn contains_name(v: &Vec<TypeName>, x: &TypeName) -> (r: bool)
    ensures
        r == seq_has_name(v@, x@),
{
    let mut i: usize = 0;
    while i < v.len()
        invariant
            i <= v@.len(),
            forall|j: int| 0 <= j < i ==> (#[trigger] v@[j])@ != x@,
        decreases v@.len() - i,
    {
        if v[i].0 == x.0 {
            proof {
                assert((#[trigger] v@[i as int])@ == x@);
            }
            return true;
        }
        i = i + 1;
    }
    false
}

} // verus!
