//! The transition engine and the trace driver.
//!
//! [`next`] derives a single transition of a term under an active context of
//! restricted channels and relabelings; [`Ccs`] drives repeated stepping from
//! an initial term until no transition exists or a term is revisited.

pub mod compose;
pub mod recurse;

use crate::tree::{render, Action, ActionV, Node, NodeV};
use vstd::prelude::*;

verus! {

/// The fatal, explicitly signaled conditions: the engine refuses these
/// rather than compute an unsound result.
#[derive(Clone, Copy, Debug, PartialEq, Eq, Structural)]
pub enum Unsupported {
    /// A `Relabel` node was encountered while searching for a
    /// synchronization partner.
    RelabelInSync,
}

/// Mathematical form of an [`Operand`].
pub enum OperandV {
    Action(ActionV),
    Left,
    Right,
    Sync(Seq<char>),
    Bound(Seq<char>),
    Empty,
}

/// Information regarding an operation: for `Choice` this indicates whether
/// the left or right child was taken, for `Prefix` the action fired, for a
/// synchronization the channel name, for `Recurse` the bound variable.  An
/// `Empty` operand together with an empty operation marks a sub-search
/// boundary in the display.
#[derive(Debug)]
pub enum Operand {
    Action(Action),
    Left,
    Right,
    Sync(String),
    Bound(String),
    Empty,
}

impl View for Operand {
    type V = OperandV;

    open spec fn view(&self) -> OperandV {
        match self {
            Operand::Action(a) => OperandV::Action(a@),
            Operand::Left => OperandV::Left,
            Operand::Right => OperandV::Right,
            Operand::Sync(c) => OperandV::Sync(c@),
            Operand::Bound(b) => OperandV::Bound(b@),
            Operand::Empty => OperandV::Empty,
        }
    }
}

/// The readable text of an operand.
pub open spec fn render_operand(o: OperandV) -> Seq<char> {
    match o {
        OperandV::Action(a) => match a {
            ActionV::In(c) => "In("@ + c + ")"@,
            ActionV::Out(c) => "Out("@ + c + ")"@,
        },
        OperandV::Left => "Left"@,
        OperandV::Right => "Right"@,
        OperandV::Sync(c) => "Sync on "@ + c,
        OperandV::Bound(b) => b,
        OperandV::Empty => Seq::<char>::empty(),
    }
}

impl Operand {
    /// The readable text of the operand, as [`render_operand`] gives it.
    pub fn render(&self) -> (r: String)
        ensures
            r@ == render_operand(self@),
    {
        match self {
            Operand::Action(a) => {
                let mut s = match a {
                    Action::In(_) => String::from_str("In("),
                    Action::Out(_) => String::from_str("Out("),
                };
                let c = a.channel();
                s.append(c.as_str());
                s.append(")");
                proof {
                    assert(s@ =~= render_operand(self@));
                }
                s
            },
            Operand::Left => String::from_str("Left"),
            Operand::Right => String::from_str("Right"),
            Operand::Sync(c) => {
                let mut s = String::from_str("Sync on ");
                s.append(c.as_str());
                s
            },
            Operand::Bound(b) => b.clone(),
            Operand::Empty => String::new(),
        }
    }
}

/// Mathematical form of a [`Step`].
pub struct StepV {
    pub operation: Seq<char>,
    pub operand: OperandV,
    pub result: Seq<char>,
}

/// A single step in a transition derivation.
#[derive(Debug)]
pub struct Step {
    /// The operation, such as `Compose`, `Choice` or `Action`; empty for a
    /// sub-search boundary marker.
    pub operation: String,
    /// Information regarding the operation.
    pub operand: Operand,
    /// Infix text of the term reached by this step.
    pub result: String,
}

impl View for Step {
    type V = StepV;

    open spec fn view(&self) -> StepV {
        StepV { operation: self.operation@, operand: self.operand@, result: self.result@ }
    }
}

impl Step {
    /// Builds a step record.
    pub fn new(operation: &str, operand: Operand, result: String) -> (s: Step)
        ensures
            s@ == (StepV { operation: operation@, operand: operand@, result: result@ }),
    {
        Step { operation: operation.to_owned(), operand, result }
    }
}

/// View of a derivation status: the step records in the order collected.
pub open spec fn status_view(v: Seq<Step>) -> Seq<StepV> {
    v.map_values(|s: Step| s@)
}

/// Mathematical form of a [`Context`].
pub struct ContextV {
    pub restrict: Seq<Seq<char>>,
    pub relabel: Seq<(Seq<char>, Seq<char>)>,
}

/// The context keeps track of modifications applied on the way down the
/// tree: restricted channels and the active relabeling.  It is passed by
/// value down each recursive descent and reset to empty at the start of
/// each top-level transition attempt.
#[derive(Debug)]
pub struct Context {
    pub restrict: Vec<String>,
    pub relabel: Vec<(String, String)>,
}

impl View for Context {
    type V = ContextV;

    open spec fn view(&self) -> ContextV {
        ContextV {
            restrict: self.restrict@.map_values(|s: String| s@),
            relabel: crate::tree::pairs_view(self.relabel@),
        }
    }
}

/// The empty context: nothing restricted, nothing relabeled.
pub open spec fn empty_context() -> ContextV {
    ContextV { restrict: Seq::<Seq<char>>::empty(), relabel: Seq::<(Seq<char>, Seq<char>)>::empty() }
}

impl Default for Context {
    /// The empty context.
    fn default() -> (c: Context)
        ensures
            c@ == empty_context(),
    {
        let c = Context { restrict: Vec::new(), relabel: Vec::new() };
        proof {
            assert(c@.restrict =~= empty_context().restrict);
            assert(c@.relabel =~= empty_context().relabel);
        }
        c
    }
}

impl Clone for Context {
    fn clone(&self) -> (c: Context)
        ensures
            c@ == self@,
    {
        let mut restrict: Vec<String> = Vec::new();
        let mut i: usize = 0;
        while i < self.restrict.len()
            invariant
                i <= self.restrict.len(),
                restrict@.len() == i,
                forall|j: int| 0 <= j < i ==> restrict@[j]@ == self.restrict@[j]@,
            decreases self.restrict.len() - i,
        {
            restrict.push(self.restrict[i].clone());
            i = i + 1;
        }
        let c = Context { restrict, relabel: crate::tree::clone_pairs(&self.relabel) };
        proof {
            assert(c@.restrict =~= self@.restrict);
        }
        c
    }
}

/// Whether a channel is in the restricted set.
pub open spec fn restricted(rs: Seq<Seq<char>>, c: Seq<char>) -> bool {
    exists|i: int| 0 <= i < rs.len() && rs[i] == c
}

/// The channel a key is relabeled to, if any: the latest entry wins.
pub open spec fn lookup_relabel(rl: Seq<(Seq<char>, Seq<char>)>, k: Seq<char>) -> Option<Seq<char>>
    decreases rl.len(),
{
    if rl.len() == 0 {
        Option::<Seq<char>>::None
    } else if rl.last().0 == k {
        Some(rl.last().1)
    } else {
        lookup_relabel(rl.drop_last(), k)
    }
}

} // verus!

verus! {

/// The number of nodes of a term.
pub open spec fn size(t: NodeV) -> nat
    decreases t,
{
    match t {
        NodeV::Nil => 1,
        NodeV::Name(_) => 1,
        NodeV::Prefix(_, p) => 1 + size(*p),
        NodeV::Choice(a, b) => 1 + size(*a) + size(*b),
        NodeV::Compose(a, b) => 1 + size(*a) + size(*b),
        NodeV::Restrict(p, _) => 1 + size(*p),
        NodeV::Relabel(p, _) => 1 + size(*p),
        NodeV::Recurse(_, p) => 1 + size(*p),
    }
}

/// Every term has at least one node.
pub proof fn lemma_size_pos(t: NodeV)
    ensures
        size(t) >= 1,
{
    match t {
        NodeV::Nil => {},
        NodeV::Name(_) => {},
        NodeV::Prefix(_, _) => {},
        NodeV::Choice(_, _) => {},
        NodeV::Compose(_, _) => {},
        NodeV::Restrict(_, _) => {},
        NodeV::Relabel(_, _) => {},
        NodeV::Recurse(_, _) => {},
    }
}

/// One step of the transition relation for `t` under context `ctx`,
/// first-found policy:
///
/// - `Recurse`: step the body without pre-substituting; on success,
///   substitute the whole recursion back into the produced term.
/// - `Restrict`: extend the restricted set with the action's channel.
/// - `Relabel`: extend the relabeling with the mapping's entries.
/// - `Compose`: synchronization first, then left interleave, then right.
/// - `Choice`: the left branch first; the right only if the left has no
///   transition.
/// - `Prefix`: relabel the action's channel through the context, refuse a
///   restricted channel, otherwise fire the action.
/// - `Name`, `Nil`: no transition.
///
/// The trace lists the step records of nested calls with the current
/// call's own step appended last.
pub open spec fn spec_step(t: NodeV, ctx: ContextV) -> Result<
    Option<(Seq<StepV>, NodeV)>,
    Unsupported,
>
    decreases t,
{
    match t {
        NodeV::Recurse(x, p) => match spec_step(*p, ctx) {
            Ok(Some((st, n))) => {
                let n2 = crate::semantics::recurse::subst(n, x, t);
                Ok(
                    Some(
                        (
                            st.push(
                                StepV {
                                    operation: "Recurse on"@,
                                    operand: OperandV::Bound(x),
                                    result: render(n2),
                                },
                            ),
                            n2,
                        ),
                    ),
                )
            },
            r => r,
        },
        NodeV::Restrict(p, a) => {
            let ctx2 = ContextV { restrict: ctx.restrict.push(a.channel()), relabel: ctx.relabel };
            match spec_step(*p, ctx2) {
                Ok(Some((st, n))) => Ok(Some((st, NodeV::Restrict(Box::new(n), a)))),
                r => r,
            }
        },
        NodeV::Relabel(p, m) => {
            let ctx2 = ContextV { restrict: ctx.restrict, relabel: ctx.relabel + m };
            match spec_step(*p, ctx2) {
                Ok(Some((st, n))) => Ok(Some((st, NodeV::Relabel(Box::new(n), m)))),
                r => r,
            }
        },
        NodeV::Compose(a, b) => match crate::semantics::compose::spec_composition(*a, *b) {
            Err(e) => Err(e),
            Ok(Some(r)) => Ok(Some(r)),
            Ok(None) => match spec_step(*a, ctx) {
                Err(e) => Err(e),
                Ok(Some((st, n))) => Ok(
                    Some(
                        (
                            st.push(
                                StepV {
                                    operation: "Parallel"@,
                                    operand: OperandV::Left,
                                    result: render(*a),
                                },
                            ),
                            NodeV::Compose(Box::new(n), b),
                        ),
                    ),
                ),
                Ok(None) => match spec_step(*b, ctx) {
                    Err(e) => Err(e),
                    Ok(Some((st, n))) => Ok(
                        Some(
                            (
                                st.push(
                                    StepV {
                                        operation: "Parallel"@,
                                        operand: OperandV::Right,
                                        result: render(*b),
                                    },
                                ),
                                NodeV::Compose(a, Box::new(n)),
                            ),
                        ),
                    ),
                    Ok(None) => Ok(None),
                },
            },
        },
        NodeV::Choice(a, b) => match spec_step(*a, ctx) {
            Err(e) => Err(e),
            Ok(Some((st, n))) => Ok(
                Some(
                    (
                        st.push(
                            StepV {
                                operation: "Choice"@,
                                operand: OperandV::Left,
                                result: render(*a),
                            },
                        ),
                        n,
                    ),
                ),
            ),
            Ok(None) => match spec_step(*b, ctx) {
                Err(e) => Err(e),
                Ok(Some((st, n))) => Ok(
                    Some(
                        (
                            st.push(
                                StepV {
                                    operation: "Choice"@,
                                    operand: OperandV::Right,
                                    result: render(*b),
                                },
                            ),
                            n,
                        ),
                    ),
                ),
                Ok(None) => Ok(None),
            },
        },
        NodeV::Prefix(a, p) => {
            let looked = lookup_relabel(ctx.relabel, a.channel());
            let act = match looked {
                Some(c2) => a.renamed(c2),
                None => a,
            };
            if restricted(ctx.restrict, act.channel()) {
                Ok(None)
            } else {
                Ok(
                    Some(
                        (
                            seq![
                                StepV {
                                    operation: "Action"@,
                                    operand: OperandV::Action(act),
                                    result: render(*p),
                                },
                            ],
                            *p,
                        ),
                    ),
                )
            }
        },
        NodeV::Name(_) => Ok(None),
        NodeV::Nil => Ok(None),
    }
}

/// The interleaving half of the `Compose` rule: step the left side and
/// re-wrap, else step the right side and re-wrap.
pub open spec fn spec_parallel(a: NodeV, b: NodeV, ctx: ContextV) -> Result<
    Option<(Seq<StepV>, NodeV)>,
    Unsupported,
> {
    match spec_step(a, ctx) {
        Err(e) => Err(e),
        Ok(Some((st, n))) => Ok(
            Some(
                (
                    st.push(
                        StepV {
                            operation: "Parallel"@,
                            operand: OperandV::Left,
                            result: render(a),
                        },
                    ),
                    NodeV::Compose(Box::new(n), Box::new(b)),
                ),
            ),
        ),
        Ok(None) => match spec_step(b, ctx) {
            Err(e) => Err(e),
            Ok(Some((st, n))) => Ok(
                Some(
                    (
                        st.push(
                            StepV {
                                operation: "Parallel"@,
                                operand: OperandV::Right,
                                result: render(b),
                            },
                        ),
                        NodeV::Compose(Box::new(a), Box::new(n)),
                    ),
                ),
            ),
            Ok(None) => Ok(None),
        },
    }
}

/// The view of an engine result.
pub open spec fn step_res_view(r: Result<Option<(Vec<Step>, Box<Node>)>, Unsupported>) -> Result<
    Option<(Seq<StepV>, NodeV)>,
    Unsupported,
> {
    match r {
        Ok(Some((st, n))) => Ok(Some((status_view(st@), n@))),
        Ok(None) => Ok(None),
        Err(e) => Err(e),
    }
}

} // verus!

verus! {

/// Looks a channel up in the active relabeling, as [`lookup_relabel`]
/// describes: the latest entry for the key wins.
fn relabel_get(rl: &Vec<(String, String)>, k: &String) -> (r: Option<String>)
    ensures
        match r {
            Some(c) => lookup_relabel(crate::tree::pairs_view(rl@), k@) == Some(c@),
            None => lookup_relabel(crate::tree::pairs_view(rl@), k@) is None,
        },
{
    let ghost rv = crate::tree::pairs_view(rl@);
    proof {
        assert(rv.take(rl@.len() as int) =~= rv);
    }
    let mut i: usize = rl.len();
    #[verifier::loop_isolation(false)]
    while i > 0
        invariant
            i <= rl@.len(),
            lookup_relabel(rv, k@) == lookup_relabel(rv.take(i as int), k@),
        decreases i,
    {
        proof {
            assert(rv[i - 1] == (rl@[i - 1].0@, rl@[i - 1].1@));
            assert(rv.take(i as int).last() == rv[i - 1]);
            assert(rv.take(i as int).drop_last() =~= rv.take(i - 1));
        }
        let p = &rl[i - 1];
        if p.0 == *k {
            return Some(p.1.clone());
        }
        i = i - 1;
    }
    proof {
        assert(rv.take(0) =~= Seq::<(Seq<char>, Seq<char>)>::empty());
    }
    None
}

/// Whether the restricted set holds the channel.
fn restrict_contains(rs: &Vec<String>, c: &String) -> (r: bool)
    ensures
        r == restricted(rs@.map_values(|s: String| s@), c@),
{
    let ghost rv = rs@.map_values(|s: String| s@);
    let mut i: usize = 0;
    #[verifier::loop_isolation(false)]
    while i < rs.len()
        invariant
            i <= rs@.len(),
            forall|j: int| 0 <= j < i ==> rv[j] != c@,
        decreases rs@.len() - i,
    {
        proof {
            assert(rv[i as int] == rs@[i as int]@);
        }
        if rs[i] == *c {
            return true;
        }
        i = i + 1;
    }
    false
}

/// Uses the operational semantics to derive a single transition from
/// `state` under `context`, as [`spec_step`] describes.  Returns the
/// derivation trace and the resulting state if a transition exists, `None`
/// if none does, and the unsupported-construct condition if the
/// synchronization search meets a `Relabel`.
pub fn next(state: &Node, context: Context) -> (r: Result<
    Option<(Vec<Step>, Box<Node>)>,
    Unsupported,
>)
    requires
        crate::semantics::compose::guarded_all(state@),
    ensures
        step_res_view(r) == spec_step(state@, context@),
    decreases size(state@), 1int,
{
    match state {
        Node::Recurse(bound, node) => {
            match next(node, context) {
                Err(e) => Err(e),
                Ok(None) => Ok(None),
                Ok(Some((mut status, n))) => {
                    let n2 = crate::semantics::recurse::recurse_sub(&n, bound, state);
                    let step = Step::new("Recurse on", Operand::Bound(bound.clone()), n2.infix());
                    let ghost pre = status@;
                    status.push(step);
                    proof {
                        assert(status_view(status@) =~= status_view(pre).push(step@));
                    }
                    Ok(Some((status, Box::new(n2))))
                },
            }
        },
        Node::Restrict(node, action) => {
            let ghost c0 = context@;
            let mut context = context;
            let ch = action.channel();
            context.restrict.push(ch);
            proof {
                assert(context@.restrict =~= c0.restrict.push(action@.channel()));
                assert(context@.relabel == c0.relabel);
            }
            match next(node, context) {
                Err(e) => Err(e),
                Ok(None) => Ok(None),
                Ok(Some((status, n))) => Ok(
                    Some((status, Box::new(Node::Restrict(n, action.clone())))),
                ),
            }
        },
        Node::Relabel(node, map) => {
            let ghost c0 = context@;
            let ghost mv = crate::tree::pairs_view(map@);
            let mut context = context;
            let ghost n0 = context.relabel@.len();
            let mut i: usize = 0;
            #[verifier::loop_isolation(false)]
            while i < map.len()
                invariant
                    i <= map@.len(),
                    context.relabel@.len() == n0 + i,
                    forall|j: int|
                        0 <= j < n0 ==> context.relabel@[j].0@ == c0.relabel[j].0
                            && context.relabel@[j].1@ == c0.relabel[j].1,
                    forall|j: int|
                        n0 <= j < n0 + i ==> context.relabel@[j].0@ == mv[j - n0].0
                            && context.relabel@[j].1@ == mv[j - n0].1,
                    context@.restrict == c0.restrict,
                decreases map@.len() - i,
            {
                let p = &map[i];
                context.relabel.push((p.0.clone(), p.1.clone()));
                proof {
                    assert(mv[i as int] == (map@[i as int].0@, map@[i as int].1@));
                }
                i = i + 1;
            }
            proof {
                assert(context@.relabel =~= c0.relabel + mv);
            }
            match next(node, context) {
                Err(e) => Err(e),
                Ok(None) => Ok(None),
                Ok(Some((status, n))) => Ok(
                    Some((status, Box::new(Node::Relabel(n, crate::tree::clone_pairs(map))))),
                ),
            }
        },
        Node::Compose(node_a, node_b) => {
            match crate::semantics::compose::composition(node_a, node_b) {
                Err(e) => Err(e),
                Ok(Some(p)) => Ok(Some(p)),
                Ok(None) => {
                    let r = crate::semantics::compose::parallel(node_a, node_b, context);
                    proof {
                        assert(spec_step(state@, context@) == spec_parallel(
                            (**node_a)@,
                            (**node_b)@,
                            context@,
                        ));
                    }
                    r
                },
            }
        },
        Node::Choice(node_a, node_b) => {
            match next(node_a, context.clone()) {
                Err(e) => Err(e),
                Ok(Some((mut s, n))) => {
                    let ghost pre = s@;
                    s.push(Step::new("Choice", Operand::Left, node_a.infix()));
                    proof {
                        assert(status_view(s@) =~= status_view(pre).push(s@.last()@));
                    }
                    Ok(Some((s, n)))
                },
                Ok(None) => match next(node_b, context) {
                    Err(e) => Err(e),
                    Ok(Some((mut s, n))) => {
                        let ghost pre = s@;
                        s.push(Step::new("Choice", Operand::Right, node_b.infix()));
                        proof {
                            assert(status_view(s@) =~= status_view(pre).push(s@.last()@));
                        }
                        Ok(Some((s, n)))
                    },
                    Ok(None) => Ok(None),
                },
            }
        },
        Node::Prefix(action, node) => {
            let channel = action.channel();
            let (channel, action) = match relabel_get(&context.relabel, &channel) {
                Some(new_channel) => {
                    let renamed = action.renamed(new_channel.as_str());
                    (new_channel, renamed)
                },
                None => (channel, action.clone()),
            };
            if restrict_contains(&context.restrict, &channel) {
                return Ok(None);
            }
            let step = Step::new("Action", Operand::Action(action), node.infix());
            let mut status: Vec<Step> = Vec::new();
            status.push(step);
            proof {
                assert(status_view(status@) =~= seq![step@]);
            }
            Ok(Some((status, Box::new((**node).clone()))))
        },
        Node::Name(_) => Ok(None),
        Node::Nil => Ok(None),
    }
}

} // verus!

verus! {

/// A transition starting from a guarded term reaches a guarded term: the
/// driver can keep stepping.
pub proof fn lemma_step_guarded(t: NodeV, ctx: ContextV)
    requires
        crate::semantics::compose::guarded_all(t),
    ensures
        spec_step(t, ctx) matches Ok(Some((st, n))) ==> crate::semantics::compose::guarded_all(n),
    decreases t,
{
    match t {
        NodeV::Nil => {},
        NodeV::Name(_) => {},
        NodeV::Prefix(_, _) => {},
        NodeV::Recurse(x, p) => {
            lemma_step_guarded(*p, ctx);
            match spec_step(*p, ctx) {
                Ok(Some((st, n))) => {
                    crate::semantics::compose::lemma_subst_guarded(n, x, t);
                },
                _ => {},
            }
        },
        NodeV::Restrict(p, a) => {
            let ctx2 = ContextV { restrict: ctx.restrict.push(a.channel()), relabel: ctx.relabel };
            lemma_step_guarded(*p, ctx2);
        },
        NodeV::Relabel(p, m) => {
            let ctx2 = ContextV { restrict: ctx.restrict, relabel: ctx.relabel + m };
            lemma_step_guarded(*p, ctx2);
        },
        NodeV::Choice(a, b) => {
            lemma_step_guarded(*a, ctx);
            lemma_step_guarded(*b, ctx);
        },
        NodeV::Compose(a, b) => {
            lemma_step_guarded(*a, ctx);
            lemma_step_guarded(*b, ctx);
            crate::semantics::compose::lemma_find_guarded(*a);
            crate::semantics::compose::lemma_find_guarded(*b);
            match (
                crate::semantics::compose::spec_find(*a),
                crate::semantics::compose::spec_find(*b),
            ) {
                (Ok((sta, ma)), Ok((stb, mb))) => {
                    crate::semantics::compose::lemma_first_sync_guarded(ma, mb);
                },
                _ => {},
            }
        },
    }
}

/// The reason the trace driver stopped.
#[derive(Clone, Copy, Debug, PartialEq, Eq, Structural)]
pub enum Halt {
    /// The current term admits no transition.
    NoTransition,
    /// The term reached by the last transition was already visited.
    Cycle,
    /// The engine met the unsupported construct and gave up.
    Unsupported,
}

/// What one call of [`Ccs::advance`] did: one more transition, or the halt
/// that ends the run.  A `Cycle` halt still carries the derivation of the
/// transition that closed the cycle.
pub enum Tick {
    Step(Vec<Step>),
    CycleStop(Vec<Step>, Node),
    Stop(Halt),
}

/// Whether the visited set holds a term equal to `n`.
fn contains_node(v: &Vec<Node>, n: &Node) -> (r: bool)
    ensures
        r == exists|i: int| 0 <= i < v@.len() && v@[i]@ == n@,
{
    let mut i: usize = 0;
    #[verifier::loop_isolation(false)]
    while i < v.len()
        invariant
            i <= v@.len(),
            forall|j: int| 0 <= j < i ==> v@[j]@ != n@,
        decreases v@.len() - i,
    {
        if crate::tree::node_eq(&v[i], n) {
            return true;
        }
        i = i + 1;
    }
    false
}

/// View of a visited set: the terms by value.
pub open spec fn visited_view(v: Seq<Node>) -> Seq<NodeV> {
    v.map_values(|n: Node| n@)
}

/// The trace driver: performs transitions on the term until no more can
/// be made, one per [`Ccs::advance`] call, each from a fresh empty
/// context.  Retains only the current term, the set of all previously
/// visited terms (by value, for syntactic revisit detection — two
/// different-but-equivalent terms are never recognized as a cycle), and
/// the transition count.  A guarded term family that generates infinitely
/// many distinct terms yields a run that never halts; no step cap is
/// imposed.
pub struct Ccs {
    /// The term the run currently holds.
    pub current: Node,
    /// Every term the run has held, the current one included.
    pub visited: Vec<Node>,
    /// The number of transitions made.
    pub transitions: usize,
}

impl Ccs {
    /// The driver's invariant: the current term is guarded and stands in
    /// the visited set.
    pub open spec fn inv(self) -> bool {
        &&& crate::semantics::compose::guarded_all(self.current@)
        &&& visited_view(self.visited@).contains(self.current@)
    }

    /// Starts a run from the initial term.
    pub fn new(root: Node) -> (c: Ccs)
        requires
            crate::semantics::compose::guarded_all(root@),
        ensures
            c.inv(),
            c.current@ == root@,
            visited_view(c.visited@) == seq![root@],
            c.transitions == 0,
    {
        let mut visited: Vec<Node> = Vec::new();
        visited.push(root.clone());
        let c = Ccs { current: root, visited, transitions: 0 };
        proof {
            assert(visited_view(c.visited@) =~= seq![c.current@]);
            assert(visited_view(c.visited@)[0] == c.current@);
        }
        c
    }

    /// Attempts one more transition of the run.
    ///
    /// - `Step(status)`: the engine stepped the current term, the term
    ///   reached was not seen before; it becomes current and joins the
    ///   visited set.
    /// - `CycleStop(status)`: the engine stepped, but the term reached was
    ///   already visited; the run halts with [`Halt::Cycle`] and the
    ///   current term does not advance.
    /// - `Stop(NoTransition)`: the current term admits no transition.
    /// - `Stop(Unsupported)`: the engine met the unsupported construct.
    ///
    /// The transition count grows by one exactly when a transition was
    /// derived, also on the one that closes a cycle.
    pub fn advance(&mut self) -> (t: Tick)
        requires
            old(self).inv(),
            old(self).transitions < usize::MAX,
        ensures
            final(self).inv(),
            match t {
                Tick::Step(st) => {
                    &&& spec_step(old(self).current@, empty_context()) == Ok::<_, Unsupported>(
                        Some((status_view(st@), final(self).current@)),
                    )
                    &&& !visited_view(old(self).visited@).contains(final(self).current@)
                    &&& visited_view(final(self).visited@) == visited_view(
                        old(self).visited@,
                    ).push(final(self).current@)
                    &&& final(self).transitions == old(self).transitions + 1
                },
                Tick::CycleStop(st, reached) => {
                    &&& spec_step(old(self).current@, empty_context()) == Ok::<_, Unsupported>(
                        Some((status_view(st@), reached@)),
                    )
                    &&& visited_view(old(self).visited@).contains(reached@)
                    &&& final(self).current@ == old(self).current@
                    &&& visited_view(final(self).visited@) == visited_view(old(self).visited@)
                    &&& final(self).transitions == old(self).transitions + 1
                },
                Tick::Stop(h) => {
                    &&& final(self).current@ == old(self).current@
                    &&& visited_view(final(self).visited@) == visited_view(old(self).visited@)
                    &&& final(self).transitions == old(self).transitions
                    &&& h != Halt::Cycle
                    &&& h == Halt::NoTransition <==> spec_step(
                        old(self).current@,
                        empty_context(),
                    ) == Ok::<_, Unsupported>(None::<(Seq<StepV>, NodeV)>)
                    &&& h == Halt::Unsupported <==> spec_step(
                        old(self).current@,
                        empty_context(),
                    ) == Err::<Option<(Seq<StepV>, NodeV)>, _>(Unsupported::RelabelInSync)
                },
            },
    {
        let context = Context::default();
        proof {
            lemma_step_guarded(self.current@, empty_context());
        }
        match next(&self.current, context) {
            Err(_e) => Tick::Stop(Halt::Unsupported),
            Ok(None) => Tick::Stop(Halt::NoTransition),
            Ok(Some((status, next_state))) => {
                let next_node = *next_state;
                self.transitions = self.transitions + 1;
                if contains_node(&self.visited, &next_node) {
                    proof {
                        let i = choose|i: int|
                            0 <= i < self.visited@.len() && self.visited@[i]@ == next_node@;
                        assert(visited_view(self.visited@)[i] == next_node@);
                    }
                    Tick::CycleStop(status, next_node)
                } else {
                    let ghost v0 = visited_view(self.visited@);
                    proof {
                        assert forall|i: int| 0 <= i < v0.len() implies v0[i] != next_node@ by {
                            assert(v0[i] == self.visited@[i]@);
                        }
                    }
                    self.visited.push(next_node.clone());
                    self.current = next_node;
                    proof {
                        assert(visited_view(self.visited@) =~= v0.push(self.current@));
                        assert(visited_view(self.visited@)[v0.len() as int] == self.current@);
                    }
                    Tick::Step(status)
                }
            },
        }
    }
}

} // verus!

verus! {

/// The engine is a pure function of the term and the context: [`next`]'s
/// contract ties its result to [`spec_step`], so repeated calls with
/// identical arguments produce identical trace/result pairs.
pub proof fn lemma_step_pure(
    t: NodeV,
    ctx: ContextV,
    r1: Result<Option<(Seq<StepV>, NodeV)>, Unsupported>,
    r2: Result<Option<(Seq<StepV>, NodeV)>, Unsupported>,
)
    requires
        r1 == spec_step(t, ctx),
        r2 == spec_step(t, ctx),
    ensures
        r1 == r2,
{
}

/// When the left branch of a choice offers a move, the choice takes it,
/// whatever the right branch offers: left-priority, not true
/// nondeterminism.
pub proof fn lemma_choice_left_priority(
    a: NodeV,
    b: NodeV,
    ctx: ContextV,
    st: Seq<StepV>,
    n: NodeV,
)
    requires
        spec_step(a, ctx) == Ok::<_, Unsupported>(Some((st, n))),
    ensures
        spec_step(NodeV::Choice(Box::new(a), Box::new(b)), ctx) == Ok::<_, Unsupported>(
            Some(
                (
                    st.push(
                        StepV {
                            operation: "Choice"@,
                            operand: OperandV::Left,
                            result: crate::tree::render(a),
                        },
                    ),
                    n,
                ),
            ),
        ),
{
}

} // verus!
