//! The term and action model: the recursive sum type of process terms, the
//! directional actions they fire, and the canonical infix rendering used by
//! the trace display.

use vstd::prelude::*;

verus! {

/// Mathematical form of an [`Action`]: a direction together with the
/// characters of the channel identifier.
pub enum ActionV {
    In(Seq<char>),
    Out(Seq<char>),
}

impl ActionV {
    /// The bare channel identifier, direction forgotten.
    pub open spec fn channel(self) -> Seq<char> {
        match self {
            ActionV::In(c) => c,
            ActionV::Out(c) => c,
        }
    }

    /// The complementary action: same channel, flipped direction.
    pub open spec fn complement(self) -> ActionV {
        match self {
            ActionV::In(c) => ActionV::Out(c),
            ActionV::Out(c) => ActionV::In(c),
        }
    }

    /// Same direction, channel replaced by `c`.
    pub open spec fn renamed(self, c: Seq<char>) -> ActionV {
        match self {
            ActionV::In(_) => ActionV::In(c),
            ActionV::Out(_) => ActionV::Out(c),
        }
    }
}

/// A directional label on a channel: either an input or an output action.
#[derive(Debug)]
pub enum Action {
    In(String),
    Out(String),
}

impl View for Action {
    type V = ActionV;

    open spec fn view(&self) -> ActionV {
        match self {
            Action::In(c) => ActionV::In(c@),
            Action::Out(c) => ActionV::Out(c@),
        }
    }
}

impl Clone for Action {
    fn clone(&self) -> (r: Action)
        ensures
            r@ == self@,
    {
        match self {
            Action::In(c) => Action::In(c.clone()),
            Action::Out(c) => Action::Out(c.clone()),
        }
    }
}

impl Action {
    /// The bare channel identifier, direction forgotten.
    pub fn channel(&self) -> (r: String)
        ensures
            r@ == self@.channel(),
    {
        match self {
            Action::In(c) => c.clone(),
            Action::Out(c) => c.clone(),
        }
    }

    /// The complementary action: same channel, flipped direction.
    pub fn complement(&self) -> (r: Action)
        ensures
            r@ == self@.complement(),
    {
        match self {
            Action::In(c) => Action::Out(c.clone()),
            Action::Out(c) => Action::In(c.clone()),
        }
    }

    /// Same direction, with the channel replaced by `c`.
    pub fn renamed(&self, c: &str) -> (r: Action)
        ensures
            r@ == self@.renamed(c@),
    {
        match self {
            Action::In(_) => Action::In(c.to_owned()),
            Action::Out(_) => Action::Out(c.to_owned()),
        }
    }
}

/// Structural equality of two actions, compared by view.
pub fn action_eq(a: &Action, b: &Action) -> (r: bool)
    ensures
        r == (a@ == b@),
{
    match (a, b) {
        (Action::In(x), Action::In(y)) => *x == *y,
        (Action::Out(x), Action::Out(y)) => *x == *y,
        _ => false,
    }
}

} // verus!

verus! {

/// View of a relabeling: the `(key, value)` channel pairs in order.
pub open spec fn pairs_view(m: Seq<(String, String)>) -> Seq<(Seq<char>, Seq<char>)> {
    m.map_values(|p: (String, String)| (p.0@, p.1@))
}

/// Mathematical form of a [`Node`]: the same tree with identifiers as
/// character sequences.
pub enum NodeV {
    Nil,
    Name(Seq<char>),
    Prefix(ActionV, Box<NodeV>),
    Choice(Box<NodeV>, Box<NodeV>),
    Compose(Box<NodeV>, Box<NodeV>),
    Restrict(Box<NodeV>, ActionV),
    Relabel(Box<NodeV>, Seq<(Seq<char>, Seq<char>)>),
    Recurse(Seq<char>, Box<NodeV>),
}

/// A process term.  Each composite variant exclusively owns its children;
/// terms are immutable values and every transformation builds a new term.
///
/// The relabeling mapping is kept as `(key, value)` pairs in insertion
/// order; a later pair for the same key takes precedence.
#[derive(Debug)]
pub enum Node {
    Nil,
    Name(String),
    Prefix(Action, Box<Node>),
    Choice(Box<Node>, Box<Node>),
    Compose(Box<Node>, Box<Node>),
    Restrict(Box<Node>, Action),
    Relabel(Box<Node>, Vec<(String, String)>),
    Recurse(String, Box<Node>),
}

/// The view of a term, with every identifier taken to its characters.
pub open spec fn node_view(n: Node) -> NodeV
    decreases n,
{
    match n {
        Node::Nil => NodeV::Nil,
        Node::Name(x) => NodeV::Name(x@),
        Node::Prefix(a, p) => NodeV::Prefix(a@, Box::new(node_view(*p))),
        Node::Choice(a, b) => NodeV::Choice(Box::new(node_view(*a)), Box::new(node_view(*b))),
        Node::Compose(a, b) => NodeV::Compose(Box::new(node_view(*a)), Box::new(node_view(*b))),
        Node::Restrict(p, a) => NodeV::Restrict(Box::new(node_view(*p)), a@),
        Node::Relabel(p, m) => NodeV::Relabel(Box::new(node_view(*p)), pairs_view(m@)),
        Node::Recurse(x, p) => NodeV::Recurse(x@, Box::new(node_view(*p))),
    }
}

impl View for Node {
    type V = NodeV;

    open spec fn view(&self) -> NodeV {
        node_view(*self)
    }
}

/// Clones a relabeling mapping, preserving its view.
pub fn clone_pairs(m: &Vec<(String, String)>) -> (r: Vec<(String, String)>)
    ensures
        pairs_view(r@) == pairs_view(m@),
{
    let mut r: Vec<(String, String)> = Vec::new();
    let mut i: usize = 0;
    while i < m.len()
        invariant
            i <= m.len(),
            r@.len() == i,
            forall|j: int| 0 <= j < i ==> r@[j].0@ == m@[j].0@ && r@[j].1@ == m@[j].1@,
        decreases m.len() - i,
    {
        let p = &m[i];
        r.push((p.0.clone(), p.1.clone()));
        i = i + 1;
    }
    proof {
        assert(pairs_view(r@) =~= pairs_view(m@));
    }
    r
}

impl Clone for Node {
    fn clone(&self) -> (r: Node)
        ensures
            r@ == self@,
        decreases self,
    {
        match self {
            Node::Nil => Node::Nil,
            Node::Name(x) => Node::Name(x.clone()),
            Node::Prefix(a, p) => Node::Prefix(a.clone(), Box::new((**p).clone())),
            Node::Choice(a, b) => Node::Choice(Box::new((**a).clone()), Box::new((**b).clone())),
            Node::Compose(a, b) => Node::Compose(Box::new((**a).clone()), Box::new((**b).clone())),
            Node::Restrict(p, a) => Node::Restrict(Box::new((**p).clone()), a.clone()),
            Node::Relabel(p, m) => Node::Relabel(Box::new((**p).clone()), clone_pairs(m)),
            Node::Recurse(x, p) => Node::Recurse(x.clone(), Box::new((**p).clone())),
        }
    }
}

/// Structural equality of two relabeling mappings, compared by view.
pub fn pairs_eq(a: &Vec<(String, String)>, b: &Vec<(String, String)>) -> (r: bool)
    ensures
        r == (pairs_view(a@) == pairs_view(b@)),
{
    proof {
        assert(pairs_view(a@).len() == a@.len());
        assert(pairs_view(b@).len() == b@.len());
    }
    if a.len() != b.len() {
        return false;
    }
    let mut i: usize = 0;
    while i < a.len()
        invariant
            i <= a.len(),
            a.len() == b.len(),
            forall|j: int| 0 <= j < i ==> pairs_view(a@)[j] == pairs_view(b@)[j],
        decreases a.len() - i,
    {
        let pa = &a[i];
        let pb = &b[i];
        if !(pa.0 == pb.0 && pa.1 == pb.1) {
            proof {
                assert(pairs_view(a@)[i as int] != pairs_view(b@)[i as int]);
            }
            return false;
        }
        i = i + 1;
    }
    proof {
        assert(pairs_view(a@) =~= pairs_view(b@));
    }
    true
}

/// Structural equality of two terms, compared by view.
pub fn node_eq(a: &Node, b: &Node) -> (r: bool)
    ensures
        r == (a@ == b@),
    decreases a,
{
    match (a, b) {
        (Node::Nil, Node::Nil) => true,
        (Node::Name(x), Node::Name(y)) => *x == *y,
        (Node::Prefix(ax, ap), Node::Prefix(bx, bp)) => action_eq(ax, bx) && node_eq(ap, bp),
        (Node::Choice(al, ar), Node::Choice(bl, br)) => node_eq(al, bl) && node_eq(ar, br),
        (Node::Compose(al, ar), Node::Compose(bl, br)) => node_eq(al, bl) && node_eq(ar, br),
        (Node::Restrict(ap, ax), Node::Restrict(bp, bx)) => node_eq(ap, bp) && action_eq(ax, bx),
        (Node::Relabel(ap, am), Node::Relabel(bp, bm)) => node_eq(ap, bp) && pairs_eq(am, bm),
        (Node::Recurse(ax, ap), Node::Recurse(bx, bp)) => *ax == *bx && node_eq(ap, bp),
        _ => false,
    }
}

} // verus!

verus! {

/// Canonical text of an action: the channel, with `!` prepended for output.
pub open spec fn render_action(a: ActionV) -> Seq<char> {
    match a {
        ActionV::In(c) => c,
        ActionV::Out(c) => "!"@ + c,
    }
}

/// Canonical text of a relabeling: comma-separated `value/key` pairs.
pub open spec fn render_pairs(m: Seq<(Seq<char>, Seq<char>)>) -> Seq<char>
    decreases m.len(),
{
    if m.len() == 0 {
        Seq::<char>::empty()
    } else {
        let sep: Seq<char> = if m.len() == 1 {
            Seq::<char>::empty()
        } else {
            ","@
        };
        render_pairs(m.drop_last()) + sep + m.last().1 + "/"@ + m.last().0
    }
}

/// Canonical infix text of a term.  Binary operators are parenthesized;
/// prefix, restriction, relabeling and recursion are written as in the
/// source syntax.  Used for trace display only, never parsed back.
pub open spec fn render(t: NodeV) -> Seq<char>
    decreases t,
{
    match t {
        NodeV::Nil => "nil"@,
        NodeV::Name(x) => x,
        NodeV::Prefix(a, p) => render_action(a) + "."@ + render(*p),
        NodeV::Choice(a, b) => "("@ + render(*a) + " + "@ + render(*b) + ")"@,
        NodeV::Compose(a, b) => "("@ + render(*a) + " | "@ + render(*b) + ")"@,
        NodeV::Restrict(p, a) => render(*p) + "\\"@ + render_action(a),
        NodeV::Relabel(p, m) => render(*p) + "["@ + render_pairs(m) + "]"@,
        NodeV::Recurse(x, p) => "_rec "@ + x + "."@ + render(*p),
    }
}

impl Action {
    /// The readable text of the action, as [`render_action`] gives it.
    pub fn text(&self) -> (r: String)
        ensures
            r@ == render_action(self@),
    {
        match self {
            Action::In(c) => c.clone(),
            Action::Out(c) => {
                let mut s = String::from_str("!");
                s.append(c.as_str());
                s
            },
        }
    }
}

/// The readable text of a relabeling mapping, as [`render_pairs`] gives it.
pub fn pairs_text(m: &Vec<(String, String)>) -> (r: String)
    ensures
        r@ == render_pairs(pairs_view(m@)),
{
    let mut s = String::new();
    let mut i: usize = 0;
    while i < m.len()
        invariant
            i <= m.len(),
            s@ == render_pairs(pairs_view(m@).take(i as int)),
        decreases m.len() - i,
    {
        let p = &m[i];
        if i > 0 {
            s.append(",");
        }
        s.append(p.1.as_str());
        s.append("/");
        s.append(p.0.as_str());
        proof {
            let pv = pairs_view(m@);
            assert(pv[i as int] == (m@[i as int].0@, m@[i as int].1@));
            assert(pv.take(i + 1).drop_last() =~= pv.take(i as int));
            assert(pv.take(i + 1).last() == pv[i as int]);
            assert(s@ =~= render_pairs(pv.take(i + 1)));
        }
        i = i + 1;
    }
    proof {
        assert(pairs_view(m@).take(m@.len() as int) =~= pairs_view(m@));
    }
    s
}

impl Node {
    /// Canonical infix text of the term, as [`render`] gives it.
    pub fn infix(&self) -> (r: String)
        ensures
            r@ == render(self@),
        decreases self,
    {
        match self {
            Node::Nil => String::from_str("nil"),
            Node::Name(x) => x.clone(),
            Node::Prefix(a, p) => {
                let mut s = a.text();
                s.append(".");
                let inner = p.infix();
                s.append(inner.as_str());
                proof {
                    assert(s@ =~= render(self@));
                }
                s
            },
            Node::Choice(a, b) => {
                let mut s = String::from_str("(");
                let la = a.infix();
                s.append(la.as_str());
                s.append(" + ");
                let rb = b.infix();
                s.append(rb.as_str());
                s.append(")");
                proof {
                    assert(s@ =~= render(self@));
                }
                s
            },
            Node::Compose(a, b) => {
                let mut s = String::from_str("(");
                let la = a.infix();
                s.append(la.as_str());
                s.append(" | ");
                let rb = b.infix();
                s.append(rb.as_str());
                s.append(")");
                proof {
                    assert(s@ =~= render(self@));
                }
                s
            },
            Node::Restrict(p, a) => {
                let mut s = p.infix();
                s.append("\\");
                let at = a.text();
                s.append(at.as_str());
                proof {
                    assert(s@ =~= render(self@));
                }
                s
            },
            Node::Relabel(p, m) => {
                let mut s = p.infix();
                s.append("[");
                let mt = pairs_text(m);
                s.append(mt.as_str());
                s.append("]");
                proof {
                    assert(s@ =~= render(self@));
                }
                s
            },
            Node::Recurse(x, p) => {
                let mut s = String::from_str("_rec ");
                s.append(x.as_str());
                s.append(".");
                let inner = p.infix();
                s.append(inner.as_str());
                proof {
                    assert(s@ =~= render(self@));
                }
                s
            },
        }
    }
}

} // verus!

verus! {

/// Complement is an involution: flipping the direction twice gives the
/// action back, for every action.
pub proof fn lemma_complement_involution(a: ActionV)
    ensures
        a.complement().complement() == a,
{
}

} // verus!
