//! Synchronization search across parallel composition: collecting the
//! actions immediately reachable from a term without committing to a
//! branch, and pairing complementary actions of two parallel subterms into
//! a silent transition.

use crate::semantics::recurse::{recurse_sub, subst};
use crate::semantics::{status_view, Operand, OperandV, Step, StepV, Unsupported};
use crate::tree::{action_eq, render, Action, ActionV, Node, NodeV};
use vstd::prelude::*;

verus! {

/// No `Name` node of `t` stands outside a `Prefix` continuation.
///
/// The synchronization search never enters a `Prefix` continuation, so a
/// shielded term offers the search no recursion variable to unfold into.
pub open spec fn shielded(t: NodeV) -> bool
    decreases t,
{
    match t {
        NodeV::Nil => true,
        NodeV::Name(_) => false,
        NodeV::Prefix(_, _) => true,
        NodeV::Choice(a, b) => shielded(*a) && shielded(*b),
        NodeV::Compose(a, b) => shielded(*a) && shielded(*b),
        NodeV::Restrict(p, _) => shielded(*p),
        NodeV::Relabel(p, _) => shielded(*p),
        NodeV::Recurse(_, p) => shielded(*p),
    }
}

/// Every recursion in `t` is guarded: the body of each `Recurse` node keeps
/// all its names behind at least one `Prefix`.  Guarded terms keep the
/// synchronization search finite; unguarded ones can make it unfold
/// recursions forever.
pub open spec fn guarded_all(t: NodeV) -> bool
    decreases t,
{
    match t {
        NodeV::Nil => true,
        NodeV::Name(_) => true,
        NodeV::Prefix(_, p) => guarded_all(*p),
        NodeV::Choice(a, b) => guarded_all(*a) && guarded_all(*b),
        NodeV::Compose(a, b) => guarded_all(*a) && guarded_all(*b),
        NodeV::Restrict(p, _) => guarded_all(*p),
        NodeV::Relabel(p, _) => guarded_all(*p),
        NodeV::Recurse(_, p) => guarded_all(*p) && shielded(*p),
    }
}

/// The number of nodes of `t` that stand outside every `Prefix`
/// continuation: the part of the term the synchronization search can visit.
pub open spec fn exposed_size(t: NodeV) -> nat
    decreases t,
{
    match t {
        NodeV::Nil => 1,
        NodeV::Name(_) => 1,
        NodeV::Prefix(_, _) => 1,
        NodeV::Choice(a, b) => 1 + exposed_size(*a) + exposed_size(*b),
        NodeV::Compose(a, b) => 1 + exposed_size(*a) + exposed_size(*b),
        NodeV::Restrict(p, _) => 1 + exposed_size(*p),
        NodeV::Relabel(p, _) => 1 + exposed_size(*p),
        NodeV::Recurse(_, p) => 1 + exposed_size(*p),
    }
}

/// Substituting into a shielded term only touches names behind prefixes:
/// the substituted term is shielded again and its exposed size is
/// unchanged.
pub proof fn lemma_subst_shielded(b: NodeV, from: Seq<char>, to: NodeV)
    requires
        shielded(b),
    ensures
        shielded(subst(b, from, to)),
        exposed_size(subst(b, from, to)) == exposed_size(b),
    decreases b,
{
    match b {
        NodeV::Nil => {},
        NodeV::Name(_) => {},
        NodeV::Prefix(_, _) => {},
        NodeV::Choice(x, y) => {
            lemma_subst_shielded(*x, from, to);
            lemma_subst_shielded(*y, from, to);
        },
        NodeV::Compose(x, y) => {
            lemma_subst_shielded(*x, from, to);
            lemma_subst_shielded(*y, from, to);
        },
        NodeV::Restrict(p, _) => lemma_subst_shielded(*p, from, to),
        NodeV::Relabel(p, _) => lemma_subst_shielded(*p, from, to),
        NodeV::Recurse(_, p) => lemma_subst_shielded(*p, from, to),
    }
}

/// Substituting a guarded term into a guarded term gives a guarded term.
pub proof fn lemma_subst_guarded(b: NodeV, from: Seq<char>, to: NodeV)
    requires
        guarded_all(b),
        guarded_all(to),
    ensures
        guarded_all(subst(b, from, to)),
    decreases b,
{
    match b {
        NodeV::Nil => {},
        NodeV::Name(_) => {},
        NodeV::Prefix(_, p) => lemma_subst_guarded(*p, from, to),
        NodeV::Choice(x, y) => {
            lemma_subst_guarded(*x, from, to);
            lemma_subst_guarded(*y, from, to);
        },
        NodeV::Compose(x, y) => {
            lemma_subst_guarded(*x, from, to);
            lemma_subst_guarded(*y, from, to);
        },
        NodeV::Restrict(p, _) => lemma_subst_guarded(*p, from, to),
        NodeV::Relabel(p, _) => lemma_subst_guarded(*p, from, to),
        NodeV::Recurse(_, p) => {
            lemma_subst_guarded(*p, from, to);
            lemma_subst_shielded(*p, from, to);
        },
    }
}

/// Whether the reachable-action mapping has an entry for key `k`.
pub open spec fn actions_has(m: Seq<(ActionV, NodeV)>, k: ActionV) -> bool {
    exists|i: int| 0 <= i < m.len() && m[i].0 == k
}

/// The term reached under key `k`: the first entry with that key.
pub open spec fn actions_get(m: Seq<(ActionV, NodeV)>, k: ActionV) -> NodeV
    decreases m.len(),
{
    if m.len() == 0 {
        NodeV::Nil
    } else if m.first().0 == k {
        m.first().1
    } else {
        actions_get(m.drop_first(), k)
    }
}

/// Adds a binding to the reachable-action mapping: an existing key keeps
/// its place and takes the new term, a new key goes to the end.
pub open spec fn actions_insert(m: Seq<(ActionV, NodeV)>, k: ActionV, v: NodeV) -> Seq<
    (ActionV, NodeV),
>
    decreases m.len(),
{
    if m.len() == 0 {
        seq![(k, v)]
    } else if m.first().0 == k {
        seq![(k, v)] + m.drop_first()
    } else {
        seq![m.first()] + actions_insert(m.drop_first(), k, v)
    }
}

/// Inserts every binding of `n` into `m`, in order.
pub open spec fn actions_extend(m: Seq<(ActionV, NodeV)>, n: Seq<(ActionV, NodeV)>) -> Seq<
    (ActionV, NodeV),
>
    decreases n.len(),
{
    if n.len() == 0 {
        m
    } else {
        actions_insert(actions_extend(m, n.drop_last()), n.last().0, n.last().1)
    }
}

/// The first pairing of complementary actions: scanning `la` in order, the
/// first key whose complement `lb` also holds, with the two terms reached.
pub open spec fn first_sync(la: Seq<(ActionV, NodeV)>, lb: Seq<(ActionV, NodeV)>) -> Option<
    (ActionV, NodeV, NodeV),
>
    decreases la.len(),
{
    if la.len() == 0 {
        Option::<(ActionV, NodeV, NodeV)>::None
    } else if actions_has(lb, la.first().0.complement()) {
        Some((la.first().0, la.first().1, actions_get(lb, la.first().0.complement())))
    } else {
        first_sync(la.drop_first(), lb)
    }
}

} // verus!

verus! {

/// The actions immediately reachable from `t` without committing to a
/// branch, each paired with the term reached by taking it, together with
/// the search trace.  `Choice` contributes both sides, `Compose` both
/// sides re-wrapped, `Restrict` passes its body through unchanged, and a
/// `Recurse` body is unfolded once; a `Relabel` met here is the
/// unsupported construct.  On key collision the later binding wins, at the
/// earlier key's place.  Only specified for guarded terms.
pub open spec fn spec_find(t: NodeV) -> Result<
    (Seq<StepV>, Seq<(ActionV, NodeV)>),
    Unsupported,
>
    decreases exposed_size(t),
        when guarded_all(t)
        via spec_find_decreases
{
    match t {
        NodeV::Nil => Ok((Seq::<StepV>::empty(), Seq::<(ActionV, NodeV)>::empty())),
        NodeV::Name(_) => Ok((Seq::<StepV>::empty(), Seq::<(ActionV, NodeV)>::empty())),
        NodeV::Prefix(a, p) => Ok(
            (
                seq![
                    StepV {
                        operation: "Action"@,
                        operand: OperandV::Action(a),
                        result: render(*p),
                    },
                ],
                seq![(a, *p)],
            ),
        ),
        NodeV::Relabel(_, _) => Err(Unsupported::RelabelInSync),
        NodeV::Restrict(p, _) => match spec_find(*p) {
            Ok((st, m)) => Ok(
                (
                    st.push(
                        StepV {
                            operation: "Restrict"@,
                            operand: OperandV::Empty,
                            result: "Compose ignores restrictions"@,
                        },
                    ),
                    m,
                ),
            ),
            Err(e) => Err(e),
        },
        NodeV::Recurse(x, p) => match spec_find(subst(*p, x, t)) {
            Ok((st, m)) => Ok(
                (
                    st.push(
                        StepV {
                            operation: "Recurse"@,
                            operand: OperandV::Empty,
                            result: "Compose does not apply recursions"@,
                        },
                    ),
                    m,
                ),
            ),
            Err(e) => Err(e),
        },
        NodeV::Choice(a, b) => match spec_find(*a) {
            Ok((sta, ma)) => match spec_find(*b) {
                Ok((stb, mb)) => Ok(
                    (
                        sta.push(
                            StepV {
                                operation: "Choice"@,
                                operand: OperandV::Left,
                                result: render(*a),
                            },
                        ) + stb.push(
                            StepV {
                                operation: "Choice"@,
                                operand: OperandV::Right,
                                result: render(*b),
                            },
                        ),
                        actions_extend(ma, mb),
                    ),
                ),
                Err(e) => Err(e),
            },
            Err(e) => Err(e),
        },
        NodeV::Compose(a, b) => match spec_find(*a) {
            Ok((sta, ma)) => match spec_find(*b) {
                Ok((stb, mb)) => Ok(
                    (
                        sta.push(
                            StepV {
                                operation: "Parallel"@,
                                operand: OperandV::Left,
                                result: render(*a),
                            },
                        ) + stb.push(
                            StepV {
                                operation: "Parallel"@,
                                operand: OperandV::Right,
                                result: render(*b),
                            },
                        ),
                        actions_extend(
                            ma.map_values(
                                |e: (ActionV, NodeV)|
                                    (e.0, NodeV::Compose(Box::new(e.1), b)),
                            ),
                            mb.map_values(
                                |e: (ActionV, NodeV)|
                                    (e.0, NodeV::Compose(a, Box::new(e.1))),
                            ),
                        ),
                    ),
                ),
                Err(e) => Err(e),
            },
            Err(e) => Err(e),
        },
    }
}

#[via_fn]
proof fn spec_find_decreases(t: NodeV) {
    match t {
        NodeV::Recurse(x, p) => {
            lemma_subst_guarded(*p, x, t);
            lemma_subst_shielded(*p, x, t);
        },
        _ => {},
    }
}

/// The synchronization search over a guarded term always yields guarded
/// terms again.
pub proof fn lemma_find_guarded(t: NodeV)
    requires
        guarded_all(t),
    ensures
        spec_find(t) matches Ok((st, m)) ==> forall|i: int|
            0 <= i < m.len() ==> guarded_all(#[trigger] m[i].1),
    decreases exposed_size(t),
{
    match t {
        NodeV::Nil => {},
        NodeV::Name(_) => {},
        NodeV::Prefix(_, _) => {},
        NodeV::Relabel(_, _) => {},
        NodeV::Restrict(p, _) => lemma_find_guarded(*p),
        NodeV::Recurse(x, p) => {
            lemma_subst_guarded(*p, x, t);
            lemma_subst_shielded(*p, x, t);
            lemma_find_guarded(subst(*p, x, t));
        },
        NodeV::Choice(a, b) => {
            lemma_find_guarded(*a);
            lemma_find_guarded(*b);
            match (spec_find(*a), spec_find(*b)) {
                (Ok((sta, ma)), Ok((stb, mb))) => lemma_extend_guarded(ma, mb),
                _ => {},
            }
        },
        NodeV::Compose(a, b) => {
            lemma_find_guarded(*a);
            lemma_find_guarded(*b);
            if spec_find(*a) is Ok && spec_find(*b) is Ok {
                let (sta, ma) = spec_find(*a)->Ok_0;
                let (stb, mb) = spec_find(*b)->Ok_0;
                let ma2 = ma.map_values(
                    |e: (ActionV, NodeV)| (e.0, NodeV::Compose(Box::new(e.1), b)),
                );
                let mb2 = mb.map_values(
                    |e: (ActionV, NodeV)| (e.0, NodeV::Compose(a, Box::new(e.1))),
                );
                assert forall|i: int| 0 <= i < ma2.len() implies guarded_all(
                    #[trigger] ma2[i].1,
                ) by {
                    assert(guarded_all(ma[i].1));
                }
                assert forall|i: int| 0 <= i < mb2.len() implies guarded_all(
                    #[trigger] mb2[i].1,
                ) by {
                    assert(guarded_all(mb[i].1));
                }
                lemma_extend_guarded(ma2, mb2);
            }
        },
    }
}

/// Guardedness of every entry survives `actions_insert`.
proof fn lemma_insert_guarded(m: Seq<(ActionV, NodeV)>, k: ActionV, v: NodeV)
    requires
        forall|i: int| 0 <= i < m.len() ==> guarded_all(#[trigger] m[i].1),
        guarded_all(v),
    ensures
        forall|i: int|
            0 <= i < actions_insert(m, k, v).len() ==> guarded_all(
                #[trigger] actions_insert(m, k, v)[i].1,
            ),
    decreases m.len(),
{
    let r = actions_insert(m, k, v);
    if m.len() == 0 {
        assert(r[0] == (k, v));
    } else if m.first().0 == k {
        assert forall|i: int| 0 <= i < r.len() implies guarded_all(#[trigger] r[i].1) by {
            if i == 0 {
                assert(r[0] == (k, v));
            } else {
                assert(r[i] == m.drop_first()[i - 1]);
                assert(m.drop_first()[i - 1] == m[i]);
            }
        }
    } else {
        assert forall|i: int| 0 <= i < m.drop_first().len() implies guarded_all(
            #[trigger] m.drop_first()[i].1,
        ) by {
            assert(m.drop_first()[i] == m[i + 1]);
        }
        lemma_insert_guarded(m.drop_first(), k, v);
        assert forall|i: int| 0 <= i < r.len() implies guarded_all(#[trigger] r[i].1) by {
            if i == 0 {
                assert(r[0] == m.first());
                assert(m.first() == m[0]);
            } else {
                assert(r[i] == actions_insert(m.drop_first(), k, v)[i - 1]);
            }
        }
    }
}

/// Guardedness of every entry survives `actions_extend`.
proof fn lemma_extend_guarded(m: Seq<(ActionV, NodeV)>, n: Seq<(ActionV, NodeV)>)
    requires
        forall|i: int| 0 <= i < m.len() ==> guarded_all(#[trigger] m[i].1),
        forall|i: int| 0 <= i < n.len() ==> guarded_all(#[trigger] n[i].1),
    ensures
        forall|i: int|
            0 <= i < actions_extend(m, n).len() ==> guarded_all(
                #[trigger] actions_extend(m, n)[i].1,
            ),
    decreases n.len(),
{
    if n.len() == 0 {
    } else {
        assert forall|i: int| 0 <= i < n.drop_last().len() implies guarded_all(
            #[trigger] n.drop_last()[i].1,
        ) by {
            assert(n.drop_last()[i] == n[i]);
        }
        lemma_extend_guarded(m, n.drop_last());
        assert(guarded_all(n.last().1));
        lemma_insert_guarded(actions_extend(m, n.drop_last()), n.last().0, n.last().1);
    }
}

/// The synchronized pair came from the two mappings, so a pairing of
/// guarded mappings is guarded.
pub proof fn lemma_first_sync_guarded(la: Seq<(ActionV, NodeV)>, lb: Seq<(ActionV, NodeV)>)
    requires
        forall|i: int| 0 <= i < la.len() ==> guarded_all(#[trigger] la[i].1),
        forall|i: int| 0 <= i < lb.len() ==> guarded_all(#[trigger] lb[i].1),
    ensures
        first_sync(la, lb) matches Some((k, ln, rn)) ==> guarded_all(ln) && guarded_all(rn),
    decreases la.len(),
{
    if la.len() == 0 {
    } else if actions_has(lb, la.first().0.complement()) {
        lemma_get_guarded(lb, la.first().0.complement());
    } else {
        assert forall|i: int| 0 <= i < la.drop_first().len() implies guarded_all(
            #[trigger] la.drop_first()[i].1,
        ) by {
            assert(la.drop_first()[i] == la[i + 1]);
        }
        lemma_first_sync_guarded(la.drop_first(), lb);
    }
}

/// A term fetched from a guarded mapping is guarded.
proof fn lemma_get_guarded(m: Seq<(ActionV, NodeV)>, k: ActionV)
    requires
        forall|i: int| 0 <= i < m.len() ==> guarded_all(#[trigger] m[i].1),
        actions_has(m, k),
    ensures
        guarded_all(actions_get(m, k)),
    decreases m.len(),
{
    if m.len() == 0 {
    } else if m.first().0 == k {
        assert(guarded_all(m[0].1));
    } else {
        assert forall|i: int| 0 <= i < m.drop_first().len() implies guarded_all(
            #[trigger] m.drop_first()[i].1,
        ) by {
            assert(m.drop_first()[i] == m[i + 1]);
        }
        let j = choose|i: int| 0 <= i < m.len() && m[i].0 == k;
        assert(m.drop_first()[j - 1].0 == k);
        lemma_get_guarded(m.drop_first(), k);
    }
}

} // verus!

verus! {

/// The silent move of two parallel subterms, if any: both sides searched
/// for reachable actions, the first complementary pair committed.  The
/// trace holds both search traces, each closed by a boundary marker, and
/// the synchronization step last.
pub open spec fn spec_composition(a: NodeV, b: NodeV) -> Result<
    Option<(Seq<StepV>, NodeV)>,
    Unsupported,
> {
    match spec_find(a) {
        Err(e) => Err(e),
        Ok((sta, ma)) => match spec_find(b) {
            Err(e) => Err(e),
            Ok((stb, mb)) => {
                let status = sta.push(
                    StepV { operation: ""@, operand: OperandV::Left, result: render(a) },
                ) + stb.push(
                    StepV { operation: ""@, operand: OperandV::Right, result: render(b) },
                );
                match first_sync(ma, mb) {
                    None => Ok(None),
                    Some((k, ln, rn)) => {
                        let comp = NodeV::Compose(Box::new(ln), Box::new(rn));
                        Ok(
                            Some(
                                (
                                    status.push(
                                        StepV {
                                            operation: "Compose"@,
                                            operand: OperandV::Sync(k.channel()),
                                            result: render(comp),
                                        },
                                    ),
                                    comp,
                                ),
                            ),
                        )
                    },
                }
            },
        },
    }
}

/// View of a reachable-action mapping.
pub open spec fn actions_view(m: Seq<(Action, Node)>) -> Seq<(ActionV, NodeV)> {
    m.map_values(|e: (Action, Node)| (e.0@, e.1@))
}

/// The first entry for a key is the one `actions_get` yields.
proof fn lemma_get_first(m: Seq<(ActionV, NodeV)>, k: ActionV, i: int)
    requires
        0 <= i < m.len(),
        m[i].0 == k,
        forall|j: int| 0 <= j < i ==> m[j].0 != k,
    ensures
        actions_get(m, k) == m[i].1,
    decreases m.len(),
{
    if i == 0 {
    } else {
        assert(m.first().0 != k);
        assert(m.drop_first()[i - 1].0 == k);
        assert forall|j: int| 0 <= j < i - 1 implies m.drop_first()[j].0 != k by {
            assert(m.drop_first()[j] == m[j + 1]);
        }
        lemma_get_first(m.drop_first(), k, i - 1);
    }
}

/// Replacing the first entry of a key in place is `actions_insert`.
proof fn lemma_insert_found(m: Seq<(ActionV, NodeV)>, k: ActionV, v: NodeV, i: int)
    requires
        0 <= i < m.len(),
        m[i].0 == k,
        forall|j: int| 0 <= j < i ==> m[j].0 != k,
    ensures
        actions_insert(m, k, v) == m.update(i, (k, v)),
    decreases m.len(),
{
    if i == 0 {
        assert(actions_insert(m, k, v) =~= m.update(0, (k, v)));
    } else {
        assert(m.first().0 != k);
        assert(m.drop_first()[i - 1].0 == k);
        assert forall|j: int| 0 <= j < i - 1 implies m.drop_first()[j].0 != k by {
            assert(m.drop_first()[j] == m[j + 1]);
        }
        lemma_insert_found(m.drop_first(), k, v, i - 1);
        assert(actions_insert(m, k, v) =~= m.update(i, (k, v)));
    }
}

/// Appending a fresh key is `actions_insert`.
proof fn lemma_insert_absent(m: Seq<(ActionV, NodeV)>, k: ActionV, v: NodeV)
    requires
        !actions_has(m, k),
    ensures
        actions_insert(m, k, v) == m.push((k, v)),
    decreases m.len(),
{
    if m.len() == 0 {
        assert(actions_insert(m, k, v) =~= m.push((k, v)));
    } else {
        assert(m[0].0 != k);
        assert forall|j: int| 0 <= j < m.drop_first().len() implies m.drop_first()[j].0 != k by {
            assert(m.drop_first()[j] == m[j + 1]);
        }
        lemma_insert_absent(m.drop_first(), k, v);
        assert(actions_insert(m, k, v) =~= m.push((k, v)));
    }
}

/// The index of the first entry for key `k`, if the mapping has one.
fn find_entry(m: &Vec<(Action, Node)>, k: &Action) -> (r: Option<usize>)
    ensures
        match r {
            Some(i) => {
                &&& i < m@.len()
                &&& actions_view(m@)[i as int].0 == k@
                &&& forall|j: int| 0 <= j < i ==> actions_view(m@)[j].0 != k@
                &&& actions_has(actions_view(m@), k@)
                &&& actions_get(actions_view(m@), k@) == actions_view(m@)[i as int].1
            },
            None => !actions_has(actions_view(m@), k@),
        },
{
    let ghost mv = actions_view(m@);
    let mut i: usize = 0;
    while i < m.len()
        invariant
            i <= m@.len(),
            mv == actions_view(m@),
            mv.len() == m@.len(),
            forall|j: int| 0 <= j < i ==> mv[j].0 != k@,
        decreases m@.len() - i,
    {
        if action_eq(&m[i].0, k) {
            proof {
                assert(mv[i as int] == (m@[i as int].0@, m@[i as int].1@));
                lemma_get_first(mv, k@, i as int);
            }
            return Some(i);
        }
        proof {
            assert(mv[i as int] == (m@[i as int].0@, m@[i as int].1@));
        }
        i = i + 1;
    }
    None
}

/// Adds a binding to the mapping, as [`actions_insert`] describes.
fn push_entry(m: &mut Vec<(Action, Node)>, k: Action, v: Node)
    ensures
        actions_view(final(m)@) == actions_insert(actions_view(old(m)@), k@, v@),
{
    let ghost mv = actions_view(m@);
    let found = find_entry(m, &k);
    match found {
        Some(i) => {
            proof {
                lemma_insert_found(mv, k@, v@, i as int);
            }
            m.set(i, (k, v));
            proof {
                assert(actions_view(m@) =~= mv.update(i as int, (k@, v@)));
            }
        },
        None => {
            m.push((k, v));
            proof {
                lemma_insert_absent(mv, k@, v@);
                assert(actions_view(m@) =~= mv.push((k@, v@)));
            }
        },
    }
}

} // verus!

verus! {

/// The view of a search result.
pub open spec fn find_res_view(r: Result<(Vec<Step>, Vec<(Action, Node)>), Unsupported>) -> Result<
    (Seq<StepV>, Seq<(ActionV, NodeV)>),
    Unsupported,
> {
    match r {
        Ok((st, m)) => Ok((status_view(st@), actions_view(m@))),
        Err(e) => Err(e),
    }
}

/// Inserts every binding of `from` into `into`, as [`actions_extend`]
/// describes.
fn extend_entries(into: &mut Vec<(Action, Node)>, from: &Vec<(Action, Node)>)
    ensures
        actions_view(final(into)@) == actions_extend(actions_view(old(into)@), actions_view(from@)),
{
    let ghost m0 = actions_view(old(into)@);
    let ghost nv = actions_view(from@);
    let mut i: usize = 0;
    while i < from.len()
        invariant
            i <= from@.len(),
            nv == actions_view(from@),
            nv.len() == from@.len(),
            actions_view(into@) == actions_extend(m0, nv.take(i as int)),
        decreases from@.len() - i,
    {
        let e = &from[i];
        push_entry(into, e.0.clone(), e.1.clone());
        proof {
            assert(nv[i as int] == (from@[i as int].0@, from@[i as int].1@));
            assert(nv.take(i + 1).drop_last() =~= nv.take(i as int));
            assert(nv.take(i + 1).last() == nv[i as int]);
        }
        i = i + 1;
    }
    proof {
        assert(nv.take(from@.len() as int) =~= nv);
    }
}

/// Finds the actions (each a `Prefix` waiting to fire) to synchronize on.
/// Returns the search trace and the mapping of every reachable action to
/// the term reached by taking it, as [`spec_find`] describes; the
/// unsupported-construct condition if the search meets a `Relabel`.
pub fn rec_find_actions(state: &Node) -> (r: Result<
    (Vec<Step>, Vec<(Action, Node)>),
    Unsupported,
>)
    requires
        guarded_all(state@),
    ensures
        find_res_view(r) == spec_find(state@),
    decreases exposed_size(state@),
{
    match state {
        Node::Nil => {
            let r = Ok((Vec::new(), Vec::new()));
            proof {
                assert(status_view(Seq::<Step>::empty()) =~= Seq::<StepV>::empty());
                assert(actions_view(Seq::<(Action, Node)>::empty()) =~= Seq::<
                    (ActionV, NodeV),
                >::empty());
            }
            r
        },
        Node::Name(_) => {
            let r = Ok((Vec::new(), Vec::new()));
            proof {
                assert(status_view(Seq::<Step>::empty()) =~= Seq::<StepV>::empty());
                assert(actions_view(Seq::<(Action, Node)>::empty()) =~= Seq::<
                    (ActionV, NodeV),
                >::empty());
            }
            r
        },
        Node::Relabel(_, _) => Err(Unsupported::RelabelInSync),
        Node::Prefix(action, node) => {
            let step = Step::new("Action", Operand::Action(action.clone()), node.infix());
            let mut status: Vec<Step> = Vec::new();
            status.push(step);
            let mut reduction: Vec<(Action, Node)> = Vec::new();
            reduction.push((action.clone(), (**node).clone()));
            proof {
                assert(status_view(status@) =~= spec_find(state@)->Ok_0.0);
                assert(actions_view(reduction@) =~= spec_find(state@)->Ok_0.1);
            }
            Ok((status, reduction))
        },
        Node::Restrict(node, _action) => {
            match rec_find_actions(node) {
                Err(e) => Err(e),
                Ok((mut status, map)) => {
                    let ghost pre = status@;
                    let step = Step::new(
                        "Restrict",
                        Operand::Empty,
                        String::from_str("Compose ignores restrictions"),
                    );
                    status.push(step);
                    proof {
                        assert(status_view(status@) =~= status_view(pre).push(step@));
                    }
                    Ok((status, map))
                },
            }
        },
        Node::Recurse(string, node) => {
            proof {
                lemma_subst_guarded(node@, string@, state@);
                lemma_subst_shielded(node@, string@, state@);
            }
            let sub_node = recurse_sub(node, string, state);
            match rec_find_actions(&sub_node) {
                Err(e) => Err(e),
                Ok((mut status, map)) => {
                    let ghost pre = status@;
                    let step = Step::new(
                        "Recurse",
                        Operand::Empty,
                        String::from_str("Compose does not apply recursions"),
                    );
                    status.push(step);
                    proof {
                        assert(status_view(status@) =~= status_view(pre).push(step@));
                    }
                    Ok((status, map))
                },
            }
        },
        Node::Choice(node_a, node_b) => {
            match rec_find_actions(node_a) {
                Err(e) => Err(e),
                Ok((mut l_status, mut merged)) => match rec_find_actions(node_b) {
                    Err(e) => Err(e),
                    Ok((mut r_status, right)) => {
                        let ghost lpre = l_status@;
                        let ghost rpre = r_status@;
                        l_status.push(Step::new("Choice", Operand::Left, node_a.infix()));
                        r_status.push(Step::new("Choice", Operand::Right, node_b.infix()));
                        proof {
                            assert(status_view(l_status@ + r_status@) =~= status_view(l_status@)
                                + status_view(r_status@));
                            assert(status_view(l_status@) =~= status_view(lpre).push(
                                l_status@.last()@,
                            ));
                            assert(status_view(r_status@) =~= status_view(rpre).push(
                                r_status@.last()@,
                            ));
                        }
                        l_status.append(&mut r_status);
                        extend_entries(&mut merged, &right);
                        Ok((l_status, merged))
                    },
                },
            }
        },
        Node::Compose(node_a, node_b) => {
            match rec_find_actions(node_a) {
                Err(e) => Err(e),
                Ok((mut l_status, left)) => match rec_find_actions(node_b) {
                    Err(e) => Err(e),
                    Ok((mut r_status, right)) => {
                        let ghost lpre = l_status@;
                        let ghost rpre = r_status@;
                        let ghost av = (**node_a)@;
                        let ghost bv = (**node_b)@;
                        let mut merged: Vec<(Action, Node)> = Vec::new();
                        let mut i: usize = 0;
                        while i < left.len()
                            invariant
                                i <= left@.len(),
                                bv == (**node_b)@,
                                merged@.len() == i,
                                forall|j: int|
                                    0 <= j < i ==> (#[trigger] merged@[j]).0@ == left@[j].0@
                                        && merged@[j].1@ == NodeV::Compose(
                                        Box::new(left@[j].1@),
                                        Box::new(bv),
                                    ),
                            decreases left@.len() - i,
                        {
                            let e = &left[i];
                            let child = e.1.clone();
                            let wrap = (**node_b).clone();
                            let node = Node::Compose(Box::new(child), Box::new(wrap));
                            proof {
                                let cv = child@;
                                let wv = wrap@;
                                assert(cv == left@[i as int].1@);
                                assert(wv == bv);
                                assert(node@ == NodeV::Compose(Box::new(cv), Box::new(wv)));
                            }
                            merged.push((e.0.clone(), node));
                            i = i + 1;
                        }
                        let mut right2: Vec<(Action, Node)> = Vec::new();
                        let mut j: usize = 0;
                        while j < right.len()
                            invariant
                                j <= right@.len(),
                                av == (**node_a)@,
                                right2@.len() == j,
                                forall|l: int|
                                    0 <= l < j ==> (#[trigger] right2@[l]).0@ == right@[l].0@
                                        && right2@[l].1@ == NodeV::Compose(
                                        Box::new(av),
                                        Box::new(right@[l].1@),
                                    ),
                            decreases right@.len() - j,
                        {
                            let e = &right[j];
                            let child = e.1.clone();
                            let wrap = (**node_a).clone();
                            let node = Node::Compose(Box::new(wrap), Box::new(child));
                            proof {
                                assert(node@ == NodeV::Compose(
                                    Box::new(av),
                                    Box::new(right@[j as int].1@),
                                ));
                            }
                            right2.push((e.0.clone(), node));
                            j = j + 1;
                        }
                        proof {
                            let lv = actions_view(left@);
                            let rv = actions_view(right@);
                            assert(actions_view(merged@) =~= lv.map_values(
                                |e: (ActionV, NodeV)|
                                    (e.0, NodeV::Compose(Box::new(e.1), Box::new(bv))),
                            ));
                            assert(actions_view(right2@) =~= rv.map_values(
                                |e: (ActionV, NodeV)|
                                    (e.0, NodeV::Compose(Box::new(av), Box::new(e.1))),
                            ));
                        }
                        l_status.push(Step::new("Parallel", Operand::Left, node_a.infix()));
                        r_status.push(Step::new("Parallel", Operand::Right, node_b.infix()));
                        proof {
                            assert(status_view(l_status@ + r_status@) =~= status_view(l_status@)
                                + status_view(r_status@));
                            assert(status_view(l_status@) =~= status_view(lpre).push(
                                l_status@.last()@,
                            ));
                            assert(status_view(r_status@) =~= status_view(rpre).push(
                                r_status@.last()@,
                            ));
                        }
                        l_status.append(&mut r_status);
                        extend_entries(&mut merged, &right2);
                        Ok((l_status, merged))
                    },
                },
            }
        },
    }
}

} // verus!

verus! {

/// Tries to synchronize on a channel somewhere in the subtrees of `node_a`
/// and `node_b`: both sides are searched, the first complementary pair in
/// the left mapping's order is committed, as [`spec_composition`]
/// describes.  Returns the unsupported-construct condition if either
/// search meets a `Relabel`, and no transition if no pair exists.
pub fn composition(node_a: &Node, node_b: &Node) -> (r: Result<
    Option<(Vec<Step>, Box<Node>)>,
    Unsupported,
>)
    requires
        guarded_all(node_a@),
        guarded_all(node_b@),
    ensures
        crate::semantics::step_res_view(r) == spec_composition(node_a@, node_b@),
{
    let (mut l_status, left) = match rec_find_actions(node_a) {
        Err(e) => {
            return Err(e);
        },
        Ok(p) => p,
    };
    let (mut r_status, right) = match rec_find_actions(node_b) {
        Err(e) => {
            return Err(e);
        },
        Ok(p) => p,
    };
    let ghost lpre = l_status@;
    let ghost rpre = r_status@;
    l_status.push(Step::new("", Operand::Left, node_a.infix()));
    r_status.push(Step::new("", Operand::Right, node_b.infix()));
    proof {
        assert(status_view(l_status@) =~= status_view(lpre).push(l_status@.last()@));
        assert(status_view(r_status@) =~= status_view(rpre).push(r_status@.last()@));
        assert(status_view(l_status@ + r_status@) =~= status_view(l_status@) + status_view(
            r_status@,
        ));
    }
    l_status.append(&mut r_status);
    let status = l_status;
    let ghost sv = status_view(status@);
    let ghost lv = actions_view(left@);
    let ghost rv = actions_view(right@);
    let mut status = status;
    let ghost s0 = status@;
    proof {
        assert(lv.skip(0) =~= lv);
    }
    let mut i: usize = 0;
    #[verifier::loop_isolation(false)]
    while i < left.len()
        invariant
            i <= left@.len(),
            status@ == s0,
            first_sync(lv, rv) == first_sync(lv.skip(i as int), rv),
        decreases left@.len() - i,
    {
        let key = left[i].0.complement();
        proof {
            assert(lv[i as int] == (left@[i as int].0@, left@[i as int].1@));
            assert(lv.skip(i as int).first() == lv[i as int]);
        }
        match find_entry(&right, &key) {
            Some(j) => {
                let ln = left[i].1.clone();
                let rn = right[j].1.clone();
                let comp = Node::Compose(Box::new(ln), Box::new(rn));
                let ch = left[i].0.channel();
                let step = Step::new("Compose", Operand::Sync(ch), comp.infix());
                proof {
                    assert(rv[j as int] == (right@[j as int].0@, right@[j as int].1@));
                    assert(first_sync(lv, rv) == Some(
                        (lv[i as int].0, lv[i as int].1, actions_get(rv, lv[i as int].0.complement())),
                    ));
                    assert(comp@ == NodeV::Compose(
                        Box::new(lv[i as int].1),
                        Box::new(actions_get(rv, lv[i as int].0.complement())),
                    ));
                }
                let ghost pre = status@;
                status.push(step);
                proof {
                    assert(status_view(status@) =~= status_view(pre).push(step@));
                }
                return Ok(Some((status, Box::new(comp))));
            },
            None => {
                proof {
                    assert(!actions_has(rv, lv[i as int].0.complement()));
                    assert(lv.skip(i as int).drop_first() =~= lv.skip(i + 1));
                }
            },
        }
        i = i + 1;
    }
    proof {
        assert(lv.skip(left@.len() as int) =~= Seq::<(ActionV, NodeV)>::empty());
    }
    Ok(None)
}

/// Tries to find a transition in `node_a` or, failing that, in `node_b`,
/// re-wrapping the stepped side back into the composition, as
/// [`crate::semantics::spec_parallel`] describes.
pub fn parallel(node_a: &Node, node_b: &Node, context: crate::semantics::Context) -> (r: Result<
    Option<(Vec<Step>, Box<Node>)>,
    Unsupported,
>)
    requires
        guarded_all(node_a@),
        guarded_all(node_b@),
    ensures
        crate::semantics::step_res_view(r) == crate::semantics::spec_parallel(
            node_a@,
            node_b@,
            context@,
        ),
    decreases crate::semantics::size(node_a@) + crate::semantics::size(node_b@), 0int,
{
    proof {
        crate::semantics::lemma_size_pos(node_a@);
        crate::semantics::lemma_size_pos(node_b@);
    }
    match crate::semantics::next(node_a, context.clone()) {
        Err(e) => Err(e),
        Ok(Some((mut s, n))) => {
            let ghost pre = s@;
            s.push(Step::new("Parallel", Operand::Left, node_a.infix()));
            proof {
                assert(status_view(s@) =~= status_view(pre).push(s@.last()@));
            }
            Ok(Some((s, Box::new(Node::Compose(n, Box::new(node_b.clone()))))))
        },
        Ok(None) => match crate::semantics::next(node_b, context) {
            Err(e) => Err(e),
            Ok(Some((mut s, n))) => {
                let ghost pre = s@;
                s.push(Step::new("Parallel", Operand::Right, node_b.infix()));
                proof {
                    assert(status_view(s@) =~= status_view(pre).push(s@.last()@));
                }
                Ok(Some((s, Box::new(Node::Compose(Box::new(node_a.clone()), n)))))
            },
            Ok(None) => Ok(None),
        },
    }
}

} // verus!

verus! {

/// The synchronization search deliberately ignores restriction: the
/// reachable-action mapping of a restricted term is that of its body,
/// unchanged — a restricted channel is still offered to the search.  This
/// is the engine's documented behavior, not the textbook rule.
pub proof fn lemma_sync_ignores_restriction(p: NodeV, a: ActionV)
    requires
        guarded_all(p),
    ensures
        spec_find(NodeV::Restrict(Box::new(p), a)) is Ok <==> spec_find(p) is Ok,
        spec_find(NodeV::Restrict(Box::new(p), a)) matches Ok((st, m)) ==> spec_find(p)
            matches Ok((st2, m2)) && m == m2,
{
}

/// The synchronization search deliberately ignores the active context: a
/// committed synchronization of two parallel subterms is the same under
/// any two contexts, restricted channels and relabelings notwithstanding.
pub proof fn lemma_sync_ignores_context(
    a: NodeV,
    b: NodeV,
    ctx1: crate::semantics::ContextV,
    ctx2: crate::semantics::ContextV,
)
    ensures
        spec_composition(a, b) matches Ok(Some(r)) ==> crate::semantics::spec_step(
            NodeV::Compose(Box::new(a), Box::new(b)),
            ctx1,
        ) == crate::semantics::spec_step(NodeV::Compose(Box::new(a), Box::new(b)), ctx2),
{
}

/// A `Relabel` met by the synchronization search always raises the
/// unsupported-construct condition, never a wrong result.
pub proof fn lemma_relabel_in_sync(p: NodeV, m: Seq<(Seq<char>, Seq<char>)>)
    requires
        guarded_all(p),
    ensures
        spec_find(NodeV::Relabel(Box::new(p), m)) == Err::<
            (Seq<StepV>, Seq<(ActionV, NodeV)>),
            Unsupported,
        >(Unsupported::RelabelInSync),
{
}

} // verus!

verus! {

/// Whether the term is shielded, as [`shielded`] describes.
pub fn is_shielded(t: &Node) -> (r: bool)
    ensures
        r == shielded(t@),
    decreases t,
{
    match t {
        Node::Nil => true,
        Node::Name(_) => false,
        Node::Prefix(_, _) => true,
        Node::Choice(a, b) => is_shielded(a) && is_shielded(b),
        Node::Compose(a, b) => is_shielded(a) && is_shielded(b),
        Node::Restrict(p, _) => is_shielded(p),
        Node::Relabel(p, _) => is_shielded(p),
        Node::Recurse(_, p) => is_shielded(p),
    }
}

/// Whether every recursion in the term is guarded, as [`guarded_all`]
/// describes: what the engine requires of its input.
pub fn is_guarded(t: &Node) -> (r: bool)
    ensures
        r == guarded_all(t@),
    decreases t,
{
    match t {
        Node::Nil => true,
        Node::Name(_) => true,
        Node::Prefix(_, p) => is_guarded(p),
        Node::Choice(a, b) => is_guarded(a) && is_guarded(b),
        Node::Compose(a, b) => is_guarded(a) && is_guarded(b),
        Node::Restrict(p, _) => is_guarded(p),
        Node::Relabel(p, _) => is_guarded(p),
        Node::Recurse(_, p) => is_guarded(p) && is_shielded(p),
    }
}

} // verus!
