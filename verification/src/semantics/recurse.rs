//! Recursion substitution: replacing every occurrence of a bound name in a
//! term by a replacement term.

use crate::tree::{Node, NodeV};
use vstd::prelude::*;

verus! {

/// Replaces every `Name(from)` leaf of `t` by `to`.
///
/// The walk enters every composite variant, including nested `Recurse`
/// nodes that reuse the same bound name: an inner binder is not treated as
/// shadowing the outer one.
pub open spec fn subst(t: NodeV, from: Seq<char>, to: NodeV) -> NodeV
    decreases t,
{
    match t {
        NodeV::Nil => NodeV::Nil,
        NodeV::Name(x) => if x == from {
            to
        } else {
            NodeV::Name(x)
        },
        NodeV::Prefix(a, p) => NodeV::Prefix(a, Box::new(subst(*p, from, to))),
        NodeV::Choice(a, b) => NodeV::Choice(
            Box::new(subst(*a, from, to)),
            Box::new(subst(*b, from, to)),
        ),
        NodeV::Compose(a, b) => NodeV::Compose(
            Box::new(subst(*a, from, to)),
            Box::new(subst(*b, from, to)),
        ),
        NodeV::Restrict(p, a) => NodeV::Restrict(Box::new(subst(*p, from, to)), a),
        NodeV::Relabel(p, m) => NodeV::Relabel(Box::new(subst(*p, from, to)), m),
        NodeV::Recurse(x, p) => NodeV::Recurse(x, Box::new(subst(*p, from, to))),
    }
}

/// Whether `Name(from)` occurs anywhere in `t`, binders notwithstanding.
pub open spec fn occurs(t: NodeV, from: Seq<char>) -> bool
    decreases t,
{
    match t {
        NodeV::Nil => false,
        NodeV::Name(x) => x == from,
        NodeV::Prefix(_, p) => occurs(*p, from),
        NodeV::Choice(a, b) => occurs(*a, from) || occurs(*b, from),
        NodeV::Compose(a, b) => occurs(*a, from) || occurs(*b, from),
        NodeV::Restrict(p, _) => occurs(*p, from),
        NodeV::Relabel(p, _) => occurs(*p, from),
        NodeV::Recurse(_, p) => occurs(*p, from),
    }
}

/// Substitution leaves a term without any occurrence of the bound name
/// unchanged: once no occurrence remains, substituting again is the
/// identity, so `subst` is idempotent on such terms.
pub proof fn lemma_subst_absent(t: NodeV, from: Seq<char>, to: NodeV)
    requires
        !occurs(t, from),
    ensures
        subst(t, from, to) == t,
    decreases t,
{
    match t {
        NodeV::Nil => {},
        NodeV::Name(_) => {},
        NodeV::Prefix(_, p) => lemma_subst_absent(*p, from, to),
        NodeV::Choice(a, b) => {
            lemma_subst_absent(*a, from, to);
            lemma_subst_absent(*b, from, to);
        },
        NodeV::Compose(a, b) => {
            lemma_subst_absent(*a, from, to);
            lemma_subst_absent(*b, from, to);
        },
        NodeV::Restrict(p, _) => lemma_subst_absent(*p, from, to),
        NodeV::Relabel(p, _) => lemma_subst_absent(*p, from, to),
        NodeV::Recurse(_, p) => lemma_subst_absent(*p, from, to),
    }
}

/// If the replacement is free of the bound name, substitution removes
/// every occurrence of it.
pub proof fn lemma_subst_removes(t: NodeV, from: Seq<char>, to: NodeV)
    requires
        !occurs(to, from),
    ensures
        !occurs(subst(t, from, to), from),
    decreases t,
{
    match t {
        NodeV::Nil => {},
        NodeV::Name(_) => {},
        NodeV::Prefix(_, p) => lemma_subst_removes(*p, from, to),
        NodeV::Choice(a, b) => {
            lemma_subst_removes(*a, from, to);
            lemma_subst_removes(*b, from, to);
        },
        NodeV::Compose(a, b) => {
            lemma_subst_removes(*a, from, to);
            lemma_subst_removes(*b, from, to);
        },
        NodeV::Restrict(p, _) => lemma_subst_removes(*p, from, to),
        NodeV::Relabel(p, _) => lemma_subst_removes(*p, from, to),
        NodeV::Recurse(_, p) => lemma_subst_removes(*p, from, to),
    }
}

/// With a replacement free of the bound name, substituting twice gives the
/// same term as substituting once.
pub proof fn lemma_subst_idempotent(t: NodeV, from: Seq<char>, to: NodeV)
    requires
        !occurs(to, from),
    ensures
        subst(subst(t, from, to), from, to) == subst(t, from, to),
{
    lemma_subst_removes(t, from, to);
    lemma_subst_absent(subst(t, from, to), from, to);
}

/// Recursively walks the term, swapping every `Name` node equal to `from`
/// for a copy of `to`.
pub fn recurse_sub(root: &Node, from: &String, to: &Node) -> (r: Node)
    ensures
        r@ == subst(root@, from@, to@),
    decreases root,
{
    match root {
        Node::Nil => Node::Nil,
        Node::Name(x) => {
            if *x == *from {
                to.clone()
            } else {
                Node::Name(x.clone())
            }
        },
        Node::Prefix(a, p) => Node::Prefix(a.clone(), Box::new(recurse_sub(p, from, to))),
        Node::Choice(a, b) => Node::Choice(
            Box::new(recurse_sub(a, from, to)),
            Box::new(recurse_sub(b, from, to)),
        ),
        Node::Compose(a, b) => Node::Compose(
            Box::new(recurse_sub(a, from, to)),
            Box::new(recurse_sub(b, from, to)),
        ),
        Node::Restrict(p, a) => Node::Restrict(Box::new(recurse_sub(p, from, to)), a.clone()),
        Node::Relabel(p, m) => Node::Relabel(Box::new(recurse_sub(p, from, to)), crate::tree::clone_pairs(m)),
        Node::Recurse(x, p) => Node::Recurse(x.clone(), Box::new(recurse_sub(p, from, to))),
    }
}

} // verus!
