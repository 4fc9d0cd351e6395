//! Parsing of one-line CCS source into a term.
//!
//! The grammar, with precedence from loosest to tightest: choice and
//! parallel composition (left-associative, one level), restriction,
//! relabeling, recursion, action prefix, atoms (`nil`, a lowercase name, a
//! parenthesized term).  An action is a single capital or small Greek
//! letter, prefixed with `!` for an output action; a relabeling is
//! bracketed comma-separated `value/key` pairs.  All spaces are removed
//! before parsing, except the one that `_rec` requires, which is put back.

use crate::tree::{Action, ActionV, Node, NodeV};
use vstd::prelude::*;

verus! {

/// Whether `c` can name an action's channel: a capital or small Greek
/// letter.
pub open spec fn is_action_char(c: char) -> bool {
    ('A' <= c && c <= 'Z') || ('\u{3b1}' <= c && c <= '\u{3c9}')
}

/// Whether `c` can stand in a name: a small Latin letter.
pub open spec fn is_name_char(c: char) -> bool {
    'a' <= c && c <= 'z'
}

/// The position of the first line break, or `-1` if the text has none.
pub open spec fn find_nl(s: Seq<char>) -> int
    decreases s.len(),
{
    if s.len() == 0 {
        -1
    } else if s[0] == '\n' {
        0
    } else {
        let r = find_nl(s.drop_first());
        if r < 0 {
            -1
        } else {
            r + 1
        }
    }
}

/// A line with a trailing carriage return stripped.
pub open spec fn strip_cr(l: Seq<char>) -> Seq<char> {
    if l.len() > 0 && l.last() == '\r' {
        l.drop_last()
    } else {
        l
    }
}

/// The lines of the text, split at line breaks, each without its line
/// ending; empty text has no lines.
pub open spec fn spec_lines(s: Seq<char>) -> Seq<Seq<char>>
    decreases s.len(),
{
    if s.len() == 0 {
        Seq::<Seq<char>>::empty()
    } else {
        let n = find_nl(s);
        if n < 0 || n >= s.len() {
            seq![strip_cr(s)]
        } else {
            seq![strip_cr(s.take(n))] + spec_lines(s.skip(n + 1))
        }
    }
}

/// Whether the line, from position `i` on, is a comment: optional blanks,
/// then two slashes.
pub open spec fn is_comment(l: Seq<char>, i: int) -> bool
    decreases l.len() - i,
{
    if i < 0 || i >= l.len() {
        false
    } else if l[i] == ' ' || l[i] == '\t' {
        is_comment(l, i + 1)
    } else {
        i + 1 < l.len() && l[i] == '/' && l[i + 1] == '/'
    }
}

/// A line worth parsing: not empty, not a comment.
pub open spec fn good_line(l: Seq<char>) -> bool {
    l.len() > 0 && !is_comment(l, 0)
}

/// The first line worth parsing, if any.
pub open spec fn first_good(ls: Seq<Seq<char>>) -> Option<Seq<char>>
    decreases ls.len(),
{
    if ls.len() == 0 {
        Option::<Seq<char>>::None
    } else if good_line(ls.first()) {
        Some(ls.first())
    } else {
        first_good(ls.drop_first())
    }
}

/// The text with every space removed.
pub open spec fn remove_spaces(s: Seq<char>) -> Seq<char>
    decreases s.len(),
{
    if s.len() == 0 {
        Seq::<char>::empty()
    } else if s.last() == ' ' {
        remove_spaces(s.drop_last())
    } else {
        remove_spaces(s.drop_last()).push(s.last())
    }
}

/// The text with a space put back after every `rec`, scanning left to
/// right without overlap.
pub open spec fn fix_rec(s: Seq<char>) -> Seq<char>
    decreases s.len(),
{
    if s.len() < 3 {
        s
    } else if s[0] == 'r' && s[1] == 'e' && s[2] == 'c' {
        "rec "@ + fix_rec(s.skip(3))
    } else {
        seq![s[0]] + fix_rec(s.skip(1))
    }
}

/// The whitespace normalization applied before parsing.
pub open spec fn spec_fix_whitespace(s: Seq<char>) -> Seq<char> {
    fix_rec(remove_spaces(s))
}

/// An action token at `i`: a channel letter, or `!` and a channel letter.
pub open spec fn p_action(s: Seq<char>, i: int) -> Option<(ActionV, int)> {
    if 0 <= i && i < s.len() && is_action_char(s[i]) {
        Some((ActionV::In(seq![s[i]]), i + 1))
    } else if 0 <= i && i + 1 < s.len() && s[i] == '!' && is_action_char(s[i + 1]) {
        Some((ActionV::Out(seq![s[i + 1]]), i + 2))
    } else {
        Option::<(ActionV, int)>::None
    }
}

/// The end of the run of name characters starting at `i`.
pub open spec fn scan_name(s: Seq<char>, i: int) -> int
    decreases s.len() - i,
{
    if 0 <= i && i < s.len() && is_name_char(s[i]) {
        scan_name(s, i + 1)
    } else {
        i
    }
}

/// One `value/key` pair of a relabeling: the channels of two actions
/// around a slash, stored as `(key, value)`.
pub open spec fn p_pair(s: Seq<char>, i: int) -> Option<((Seq<char>, Seq<char>), int)> {
    match p_action(s, i) {
        None => Option::<((Seq<char>, Seq<char>), int)>::None,
        Some((value, j)) => {
            if j < s.len() && s[j] == '/' {
                match p_action(s, j + 1) {
                    None => None,
                    Some((key, j2)) => Some(((key.channel(), value.channel()), j2)),
                }
            } else {
                None
            }
        },
    }
}

/// The remaining `,value/key` pairs of a relabeling.
pub open spec fn p_mapping_rest(s: Seq<char>, i: int, acc: Seq<(Seq<char>, Seq<char>)>) -> Option<
    (Seq<(Seq<char>, Seq<char>)>, int),
>
    decreases s.len() - i,
{
    if 0 <= i && i < s.len() && s[i] == ',' {
        match p_pair(s, i + 1) {
            None => Option::<(Seq<(Seq<char>, Seq<char>)>, int)>::None,
            Some((p, j)) => {
                if i < j && j <= s.len() {
                    p_mapping_rest(s, j, acc.push(p))
                } else {
                    None
                }
            },
        }
    } else {
        Some((acc, i))
    }
}

/// A relabeling mapping: one pair, then any number of comma-led pairs.
pub open spec fn p_mapping(s: Seq<char>, i: int) -> Option<(Seq<(Seq<char>, Seq<char>)>, int)> {
    match p_pair(s, i) {
        None => Option::<(Seq<(Seq<char>, Seq<char>)>, int)>::None,
        Some((p, j)) => {
            if i < j && j <= s.len() {
                p_mapping_rest(s, j, seq![p])
            } else {
                None
            }
        },
    }
}

/// A term at the choice/composition level: one tighter term, then any
/// number of `|` or `+` steps, folded to the left.
pub open spec fn p_expr(s: Seq<char>, i: int) -> Option<(NodeV, int)>
    decreases s.len() - i, 9int,
{
    if 0 <= i && i <= s.len() {
        match p_restrict(s, i) {
            None => Option::<(NodeV, int)>::None,
            Some((t, j)) => {
                if i <= j && j <= s.len() {
                    p_expr_rest(s, j, t)
                } else {
                    None
                }
            },
        }
    } else {
        None
    }
}

/// The remaining `|`/`+` steps of a choice/composition chain.
pub open spec fn p_expr_rest(s: Seq<char>, i: int, acc: NodeV) -> Option<(NodeV, int)>
    decreases s.len() - i, 8int,
{
    if 0 <= i && i < s.len() && (s[i] == '|' || s[i] == '+') {
        match p_restrict(s, i + 1) {
            None => Option::<(NodeV, int)>::None,
            Some((t, j)) => {
                if i < j && j <= s.len() {
                    let node = if s[i] == '|' {
                        NodeV::Compose(Box::new(acc), Box::new(t))
                    } else {
                        NodeV::Choice(Box::new(acc), Box::new(t))
                    };
                    p_expr_rest(s, j, node)
                } else {
                    None
                }
            },
        }
    } else {
        Some((acc, i))
    }
}

/// A term at the restriction level: one tighter term, then any number of
/// `\action` steps.
pub open spec fn p_restrict(s: Seq<char>, i: int) -> Option<(NodeV, int)>
    decreases s.len() - i, 7int,
{
    match p_relabel(s, i) {
        None => Option::<(NodeV, int)>::None,
        Some((t, j)) => {
            if i <= j && j <= s.len() {
                p_restrict_rest(s, j, t)
            } else {
                None
            }
        },
    }
}

/// The remaining `\action` steps of a restriction chain.
pub open spec fn p_restrict_rest(s: Seq<char>, i: int, acc: NodeV) -> Option<(NodeV, int)>
    decreases s.len() - i, 6int,
{
    if 0 <= i && i < s.len() && s[i] == '\\' {
        match p_action(s, i + 1) {
            None => Option::<(NodeV, int)>::None,
            Some((a, j)) => {
                if i < j && j <= s.len() {
                    p_restrict_rest(s, j, NodeV::Restrict(Box::new(acc), a))
                } else {
                    None
                }
            },
        }
    } else {
        Some((acc, i))
    }
}

/// A term at the relabeling level: one tighter term, then any number of
/// `[mapping]` steps.
pub open spec fn p_relabel(s: Seq<char>, i: int) -> Option<(NodeV, int)>
    decreases s.len() - i, 5int,
{
    match p_recurse(s, i) {
        None => Option::<(NodeV, int)>::None,
        Some((t, j)) => {
            if i <= j && j <= s.len() {
                p_relabel_rest(s, j, t)
            } else {
                None
            }
        },
    }
}

/// The remaining `[mapping]` steps of a relabeling chain.
pub open spec fn p_relabel_rest(s: Seq<char>, i: int, acc: NodeV) -> Option<(NodeV, int)>
    decreases s.len() - i, 4int,
{
    if 0 <= i && i < s.len() && s[i] == '[' {
        match p_mapping(s, i + 1) {
            None => Option::<(NodeV, int)>::None,
            Some((m, j)) => {
                if i < j && j < s.len() && s[j] == ']' {
                    p_relabel_rest(s, j + 1, NodeV::Relabel(Box::new(acc), m))
                } else {
                    None
                }
            },
        }
    } else {
        Some((acc, i))
    }
}

/// A term at the recursion level: `_rec x.` and a recursion-level body,
/// or an action prefix.
pub open spec fn p_recurse(s: Seq<char>, i: int) -> Option<(NodeV, int)>
    decreases s.len() - i, 3int,
{
    if 0 <= i && i + 6 < s.len() && s[i] == '_' && s[i + 1] == 'r' && s[i + 2] == 'e' && s[i + 3]
        == 'c' && s[i + 4] == ' ' && is_name_char(s[i + 5]) && s[i + 6] == '.' {
        match p_recurse(s, i + 7) {
            None => Option::<(NodeV, int)>::None,
            Some((t, j)) => Some((NodeV::Recurse(seq![s[i + 5]], Box::new(t)), j)),
        }
    } else {
        p_prefix(s, i)
    }
}

/// A term at the prefix level: an action, a dot and a prefix-level
/// continuation, or an atom.
pub open spec fn p_prefix(s: Seq<char>, i: int) -> Option<(NodeV, int)>
    decreases s.len() - i, 2int,
{
    match p_action(s, i) {
        Some((a, j)) => {
            if i < j && j < s.len() && s[j] == '.' {
                match p_prefix(s, j + 1) {
                    None => Option::<(NodeV, int)>::None,
                    Some((t, j2)) => Some((NodeV::Prefix(a, Box::new(t)), j2)),
                }
            } else {
                None
            }
        },
        None => p_atom(s, i),
    }
}

/// An atom: `nil`, a lowercase name, or a parenthesized term.
pub open spec fn p_atom(s: Seq<char>, i: int) -> Option<(NodeV, int)>
    decreases s.len() - i, 1int,
{
    if 0 <= i && i + 2 < s.len() && s[i] == 'n' && s[i + 1] == 'i' && s[i + 2] == 'l' {
        Some((NodeV::Nil, i + 3))
    } else if 0 <= i && i < s.len() && is_name_char(s[i]) {
        let j = scan_name(s, i);
        Some((NodeV::Name(s.subrange(i, j)), j))
    } else if 0 <= i && i < s.len() && s[i] == '(' {
        match p_expr(s, i + 1) {
            None => Option::<(NodeV, int)>::None,
            Some((t, j)) => {
                if j < s.len() && s[j] == ')' {
                    Some((t, j + 1))
                } else {
                    None
                }
            },
        }
    } else {
        None
    }
}

/// What parsing the whole source yields: the first line worth parsing,
/// whitespace-normalized, read as a term covering the full line.
pub open spec fn spec_parse(s: Seq<char>) -> Option<NodeV> {
    match first_good(spec_lines(s)) {
        None => Option::<NodeV>::None,
        Some(l) => {
            let f = spec_fix_whitespace(l);
            match p_expr(f, 0) {
                Some((t, j)) => {
                    if j == f.len() {
                        Some(t)
                    } else {
                        None
                    }
                },
                None => None,
            }
        },
    }
}

} // verus!

verus! {

/// Relies on std's `String::push`: appends one character.
#[verifier::external_body]
fn push_char(s: &mut String, c: char)
    ensures
        final(s)@ == old(s)@.push(c),
{
    s.push(c)
}

/// The characters of the source, one by one.
fn chars_of(s: &str) -> (v: Vec<char>)
    ensures
        v@ == s@,
{
    let n = s.unicode_len();
    let mut v: Vec<char> = Vec::new();
    let mut i: usize = 0;
    #[verifier::loop_isolation(false)]
    while i < n
        invariant
            i <= n,
            v@ =~= s@.take(i as int),
        decreases n - i,
    {
        v.push(s.get_char(i));
        proof {
            assert(v@ =~= s@.take(i + 1));
        }
        i = i + 1;
    }
    proof {
        assert(s@.take(n as int) =~= s@);
    }
    v
}

/// Whether `c` can name an action's channel.
fn action_char(c: char) -> (r: bool)
    ensures
        r == is_action_char(c),
{
    let u = c as u32;
    (u >= 'A' as u32 && u <= 'Z' as u32) || (u >= '\u{3b1}' as u32 && u <= '\u{3c9}' as u32)
}

/// Whether `c` can stand in a name.
fn name_char(c: char) -> (r: bool)
    ensures
        r == is_name_char(c),
{
    let u = c as u32;
    u >= 'a' as u32 && u <= 'z' as u32
}

/// A one-character string.
fn char_string(c: char) -> (r: String)
    ensures
        r@ =~= seq![c],
{
    let mut s = String::new();
    push_char(&mut s, c);
    s
}

/// An action token, as [`p_action`] describes.
fn e_action(v: &Vec<char>, i: usize) -> (r: Option<(Action, usize)>)
    ensures
        match r {
            Some((a, j)) => p_action(v@, i as int) == Some((a@, j as int)) && i < j <= v@.len(),
            None => p_action(v@, i as int) is None,
        },
{
    if i < v.len() && action_char(v[i]) {
        let s = char_string(v[i]);
        Some((Action::In(s), i + 1))
    } else if i < v.len() && i + 1 < v.len() && v[i] == '!' && action_char(v[i + 1]) {
        let s = char_string(v[i + 1]);
        Some((Action::Out(s), i + 2))
    } else {
        None
    }
}

/// The end of the run of name characters starting at `i`.
fn e_scan_name(v: &Vec<char>, i: usize) -> (r: usize)
    requires
        i <= v@.len(),
    ensures
        r == scan_name(v@, i as int),
        i <= r <= v@.len(),
    decreases v@.len() - i,
{
    if i < v.len() && name_char(v[i]) {
        e_scan_name(v, i + 1)
    } else {
        i
    }
}

/// One `value/key` pair of a relabeling, as [`p_pair`] describes.
fn e_pair(v: &Vec<char>, i: usize) -> (r: Option<((String, String), usize)>)
    ensures
        match r {
            Some((p, j)) => p_pair(v@, i as int) == Some(((p.0@, p.1@), j as int)) && i < j
                <= v@.len(),
            None => p_pair(v@, i as int) is None,
        },
{
    match e_action(v, i) {
        None => None,
        Some((value, j)) => {
            if j < v.len() && v[j] == '/' {
                match e_action(v, j + 1) {
                    None => None,
                    Some((key, j2)) => {
                        let kc = key.channel();
                        let vc = value.channel();
                        Some(((kc, vc), j2))
                    },
                }
            } else {
                None
            }
        },
    }
}

/// The remaining pairs of a relabeling, as [`p_mapping_rest`] describes.
fn e_mapping_rest(v: &Vec<char>, i: usize, acc: Vec<(String, String)>) -> (r: Option<
    (Vec<(String, String)>, usize),
>)
    requires
        i <= v@.len(),
    ensures
        match r {
            Some((m, j)) => p_mapping_rest(v@, i as int, crate::tree::pairs_view(acc@)) == Some(
                (crate::tree::pairs_view(m@), j as int),
            ) && i <= j <= v@.len(),
            None => p_mapping_rest(v@, i as int, crate::tree::pairs_view(acc@)) is None,
        },
    decreases v@.len() - i,
{
    if i < v.len() && v[i] == ',' {
        match e_pair(v, i + 1) {
            None => None,
            Some((p, j)) => {
                let ghost a0 = crate::tree::pairs_view(acc@);
                let ghost pv = (p.0@, p.1@);
                let mut acc = acc;
                acc.push(p);
                proof {
                    assert(crate::tree::pairs_view(acc@) =~= a0.push(pv));
                }
                e_mapping_rest(v, j, acc)
            },
        }
    } else {
        Some((acc, i))
    }
}

/// A relabeling mapping, as [`p_mapping`] describes.
fn e_mapping(v: &Vec<char>, i: usize) -> (r: Option<(Vec<(String, String)>, usize)>)
    ensures
        match r {
            Some((m, j)) => p_mapping(v@, i as int) == Some((crate::tree::pairs_view(m@), j as int))
                && i < j <= v@.len(),
            None => p_mapping(v@, i as int) is None,
        },
{
    match e_pair(v, i) {
        None => None,
        Some((p, j)) => {
            let ghost pv = (p.0@, p.1@);
            let mut acc: Vec<(String, String)> = Vec::new();
            acc.push(p);
            proof {
                assert(crate::tree::pairs_view(acc@) =~= seq![pv]);
            }
            e_mapping_rest(v, j, acc)
        },
    }
}

/// A term at the choice/composition level, as [`p_expr`] describes.
fn e_expr(v: &Vec<char>, i: usize) -> (r: Option<(Node, usize)>)
    requires
        i <= v@.len(),
    ensures
        match r {
            Some((t, j)) => p_expr(v@, i as int) == Some((t@, j as int)) && i <= j <= v@.len(),
            None => p_expr(v@, i as int) is None,
        },
    decreases v@.len() - i, 9int,
{
    match e_restrict(v, i) {
        None => None,
        Some((t, j)) => e_expr_rest(v, j, t),
    }
}

/// The remaining choice/composition steps, as [`p_expr_rest`] describes.
fn e_expr_rest(v: &Vec<char>, i: usize, acc: Node) -> (r: Option<(Node, usize)>)
    requires
        i <= v@.len(),
    ensures
        match r {
            Some((t, j)) => p_expr_rest(v@, i as int, acc@) == Some((t@, j as int)) && i <= j
                <= v@.len(),
            None => p_expr_rest(v@, i as int, acc@) is None,
        },
    decreases v@.len() - i, 8int,
{
    if i < v.len() && (v[i] == '|' || v[i] == '+') {
        let compose = v[i] == '|';
        match e_restrict(v, i + 1) {
            None => None,
            Some((t, j)) => {
                let node = if compose {
                    Node::Compose(Box::new(acc), Box::new(t))
                } else {
                    Node::Choice(Box::new(acc), Box::new(t))
                };
                e_expr_rest(v, j, node)
            },
        }
    } else {
        Some((acc, i))
    }
}

/// A term at the restriction level, as [`p_restrict`] describes.
fn e_restrict(v: &Vec<char>, i: usize) -> (r: Option<(Node, usize)>)
    requires
        i <= v@.len(),
    ensures
        match r {
            Some((t, j)) => p_restrict(v@, i as int) == Some((t@, j as int)) && i <= j <= v@.len(),
            None => p_restrict(v@, i as int) is None,
        },
    decreases v@.len() - i, 7int,
{
    match e_relabel(v, i) {
        None => None,
        Some((t, j)) => e_restrict_rest(v, j, t),
    }
}

/// The remaining restriction steps, as [`p_restrict_rest`] describes.
fn e_restrict_rest(v: &Vec<char>, i: usize, acc: Node) -> (r: Option<(Node, usize)>)
    requires
        i <= v@.len(),
    ensures
        match r {
            Some((t, j)) => p_restrict_rest(v@, i as int, acc@) == Some((t@, j as int)) && i <= j
                <= v@.len(),
            None => p_restrict_rest(v@, i as int, acc@) is None,
        },
    decreases v@.len() - i, 6int,
{
    if i < v.len() && v[i] == '\\' {
        match e_action(v, i + 1) {
            None => None,
            Some((a, j)) => e_restrict_rest(v, j, Node::Restrict(Box::new(acc), a)),
        }
    } else {
        Some((acc, i))
    }
}

/// A term at the relabeling level, as [`p_relabel`] describes.
fn e_relabel(v: &Vec<char>, i: usize) -> (r: Option<(Node, usize)>)
    requires
        i <= v@.len(),
    ensures
        match r {
            Some((t, j)) => p_relabel(v@, i as int) == Some((t@, j as int)) && i <= j <= v@.len(),
            None => p_relabel(v@, i as int) is None,
        },
    decreases v@.len() - i, 5int,
{
    match e_recurse(v, i) {
        None => None,
        Some((t, j)) => e_relabel_rest(v, j, t),
    }
}

/// The remaining relabeling steps, as [`p_relabel_rest`] describes.
fn e_relabel_rest(v: &Vec<char>, i: usize, acc: Node) -> (r: Option<(Node, usize)>)
    requires
        i <= v@.len(),
    ensures
        match r {
            Some((t, j)) => p_relabel_rest(v@, i as int, acc@) == Some((t@, j as int)) && i <= j
                <= v@.len(),
            None => p_relabel_rest(v@, i as int, acc@) is None,
        },
    decreases v@.len() - i, 4int,
{
    if i < v.len() && v[i] == '[' {
        match e_mapping(v, i + 1) {
            None => None,
            Some((m, j)) => {
                if j < v.len() && v[j] == ']' {
                    e_relabel_rest(v, j + 1, Node::Relabel(Box::new(acc), m))
                } else {
                    None
                }
            },
        }
    } else {
        Some((acc, i))
    }
}

/// A term at the recursion level, as [`p_recurse`] describes.
fn e_recurse(v: &Vec<char>, i: usize) -> (r: Option<(Node, usize)>)
    requires
        i <= v@.len(),
    ensures
        match r {
            Some((t, j)) => p_recurse(v@, i as int) == Some((t@, j as int)) && i <= j <= v@.len(),
            None => p_recurse(v@, i as int) is None,
        },
    decreases v@.len() - i, 3int,
{
    if v.len() > 6 && i < v.len() - 6 && v[i] == '_' && v[i + 1] == 'r' && v[i + 2] == 'e'
        && v[i + 3] == 'c' && v[i + 4] == ' ' && name_char(v[i + 5]) && v[i + 6] == '.' {
        match e_recurse(v, i + 7) {
            None => None,
            Some((t, j)) => {
                let x = char_string(v[i + 5]);
                Some((Node::Recurse(x, Box::new(t)), j))
            },
        }
    } else {
        e_prefix(v, i)
    }
}

/// A term at the prefix level, as [`p_prefix`] describes.
fn e_prefix(v: &Vec<char>, i: usize) -> (r: Option<(Node, usize)>)
    requires
        i <= v@.len(),
    ensures
        match r {
            Some((t, j)) => p_prefix(v@, i as int) == Some((t@, j as int)) && i <= j <= v@.len(),
            None => p_prefix(v@, i as int) is None,
        },
    decreases v@.len() - i, 2int,
{
    match e_action(v, i) {
        Some((a, j)) => {
            if j < v.len() && v[j] == '.' {
                match e_prefix(v, j + 1) {
                    None => None,
                    Some((t, j2)) => Some((Node::Prefix(a, Box::new(t)), j2)),
                }
            } else {
                None
            }
        },
        None => e_atom(v, i),
    }
}

/// An atom, as [`p_atom`] describes.
#[verifier::rlimit(30)]
fn e_atom(v: &Vec<char>, i: usize) -> (r: Option<(Node, usize)>)
    requires
        i <= v@.len(),
    ensures
        match r {
            Some((t, j)) => p_atom(v@, i as int) == Some((t@, j as int)) && i <= j <= v@.len(),
            None => p_atom(v@, i as int) is None,
        },
    decreases v@.len() - i, 1int,
{
    if v.len() > 2 && i < v.len() - 2 && v[i] == 'n' && v[i + 1] == 'i' && v[i + 2] == 'l' {
        Some((Node::Nil, i + 3))
    } else if i < v.len() && name_char(v[i]) {
        let j = e_scan_name(v, i);
        let mut name = String::new();
        let mut k: usize = i;
        #[verifier::loop_isolation(false)]
        while k < j
            invariant
                i <= k <= j,
                name@ =~= v@.subrange(i as int, k as int),
            decreases j - k,
        {
            push_char(&mut name, v[k]);
            proof {
                assert(name@ =~= v@.subrange(i as int, k + 1));
            }
            k = k + 1;
        }
        Some((Node::Name(name), j))
    } else if i < v.len() && v[i] == '(' {
        match e_expr(v, i + 1) {
            None => None,
            Some((t, j)) => {
                if j < v.len() && v[j] == ')' {
                    Some((t, j + 1))
                } else {
                    None
                }
            },
        }
    } else {
        None
    }
}

} // verus!

verus! {

/// `find_nl` names the first line break: it is in bounds and on a break,
/// with none before it, or negative with no break at all.
proof fn lemma_find_nl(s: Seq<char>)
    ensures
        find_nl(s) < 0 ==> forall|j: int| 0 <= j < s.len() ==> s[j] != '\n',
        find_nl(s) >= 0 ==> find_nl(s) < s.len() && s[find_nl(s)] == '\n' && forall|j: int|
            0 <= j < find_nl(s) ==> s[j] != '\n',
    decreases s.len(),
{
    if s.len() == 0 {
    } else if s[0] == '\n' {
    } else {
        lemma_find_nl(s.drop_first());
        assert forall|j: int| 0 <= j < s.drop_first().len() implies s.drop_first()[j] == s[j + 1]
            by {}
        if find_nl(s) >= 0 {
            assert forall|j: int| 0 <= j < find_nl(s) implies s[j] != '\n' by {
                if j > 0 {
                    assert(s.drop_first()[j - 1] != '\n');
                }
            }
        } else {
            assert forall|j: int| 0 <= j < s.len() implies s[j] != '\n' by {
                if j > 0 {
                    assert(s.drop_first()[j - 1] != '\n');
                }
            }
        }
    }
}

/// The first line break at or after `start`, if any.
fn e_find_nl(v: &Vec<char>, start: usize) -> (r: Option<usize>)
    requires
        start <= v@.len(),
    ensures
        match r {
            Some(k) => start <= k < v@.len() && find_nl(v@.skip(start as int)) == k - start,
            None => find_nl(v@.skip(start as int)) < 0,
        },
{
    let ghost s = v@.skip(start as int);
    proof {
        lemma_find_nl(s);
        assert forall|j: int| 0 <= j < s.len() implies s[j] == v@[start + j] by {}
    }
    let mut k: usize = start;
    #[verifier::loop_isolation(false)]
    while k < v.len()
        invariant
            start <= k <= v@.len(),
            forall|j: int| start <= j < k ==> v@[j] != '\n',
        decreases v@.len() - k,
    {
        if v[k] == '\n' {
            proof {
                let n = find_nl(s);
                assert(s[k - start] == '\n');
                if n < 0 {
                    assert(false);
                }
                if n < k - start {
                    assert(v@[start + n] == '\n');
                    assert(false);
                }
                if n > k - start {
                    assert(s[k - start] != '\n');
                    assert(false);
                }
            }
            return Some(k);
        }
        k = k + 1;
    }
    proof {
        let n = find_nl(s);
        if n >= 0 {
            assert(s[n] == '\n');
            assert(v@[start + n] == '\n');
            assert(false);
        }
    }
    None
}

/// The line from `start` to `end`, its trailing carriage return stripped.
fn copy_line(v: &Vec<char>, start: usize, end: usize) -> (l: Vec<char>)
    requires
        start <= end <= v@.len(),
    ensures
        l@ == strip_cr(v@.subrange(start as int, end as int)),
{
    let mut l: Vec<char> = Vec::new();
    let mut k: usize = start;
    #[verifier::loop_isolation(false)]
    while k < end
        invariant
            start <= k <= end,
            l@ =~= v@.subrange(start as int, k as int),
        decreases end - k,
    {
        l.push(v[k]);
        proof {
            assert(l@ =~= v@.subrange(start as int, k + 1));
        }
        k = k + 1;
    }
    if l.len() > 0 && l[l.len() - 1] == '\r' {
        l.pop();
        proof {
            assert(l@ =~= strip_cr(v@.subrange(start as int, end as int)));
        }
    }
    l
}

/// Whether the line is worth parsing, as [`good_line`] describes.
fn e_good_line(l: &Vec<char>) -> (r: bool)
    ensures
        r == good_line(l@),
{
    if l.len() == 0 {
        return false;
    }
    let mut i: usize = 0;
    #[verifier::loop_isolation(false)]
    while i < l.len()
        invariant
            i <= l@.len(),
            is_comment(l@, 0) == is_comment(l@, i as int),
        decreases l@.len() - i,
    {
        let c = l[i];
        if c == ' ' || c == '\t' {
            i = i + 1;
        } else {
            return !(c == '/' && i + 1 < l.len() && l[i + 1] == '/');
        }
    }
    true
}

/// The first line worth parsing at or after `start`, as [`first_good`]
/// describes of the remaining lines.
fn pick_line(v: &Vec<char>, start: usize) -> (r: Option<Vec<char>>)
    requires
        start <= v@.len(),
    ensures
        match r {
            Some(l) => first_good(spec_lines(v@.skip(start as int))) == Some(l@),
            None => first_good(spec_lines(v@.skip(start as int))) is None,
        },
    decreases v@.len() - start,
{
    let ghost s = v@.skip(start as int);
    if start == v.len() {
        proof {
            assert(s =~= Seq::<char>::empty());
        }
        return None;
    }
    match e_find_nl(v, start) {
        None => {
            let l = copy_line(v, start, v.len());
            proof {
                assert(v@.subrange(start as int, v@.len() as int) =~= s);
                assert(spec_lines(s) == seq![strip_cr(s)]);
                assert(spec_lines(s).first() == l@);
                assert(spec_lines(s).len() == 1);
            }
            if e_good_line(&l) {
                proof {
                    assert(first_good(spec_lines(s)) == Some(l@));
                }
                Some(l)
            } else {
                proof {
                    assert(spec_lines(s).drop_first() =~= Seq::<Seq<char>>::empty());
                    assert(first_good(Seq::<Seq<char>>::empty()) is None);
                    assert(first_good(spec_lines(s)) is None);
                }
                None
            }
        },
        Some(k) => {
            let l = copy_line(v, start, k);
            proof {
                let n = find_nl(s);
                assert(n == k - start);
                assert(v@.subrange(start as int, k as int) =~= s.take(n));
                assert(s.skip(n + 1) =~= v@.skip(k + 1));
                assert(spec_lines(s) == seq![strip_cr(s.take(n))] + spec_lines(s.skip(n + 1)));
                assert(spec_lines(s).first() == l@);
                assert(spec_lines(s).drop_first() =~= spec_lines(v@.skip(k + 1)));
            }
            if e_good_line(&l) {
                proof {
                    assert(first_good(spec_lines(s)) == Some(l@));
                }
                Some(l)
            } else {
                proof {
                    assert(first_good(spec_lines(s)) == first_good(spec_lines(v@.skip(k + 1))));
                }
                pick_line(v, k + 1)
            }
        },
    }
}

/// Removes every space and puts one back after each `rec`, as
/// [`spec_fix_whitespace`] describes.
fn fix_whitespace(l: &Vec<char>) -> (r: Vec<char>)
    ensures
        r@ == spec_fix_whitespace(l@),
{
    let mut no_space: Vec<char> = Vec::new();
    let mut i: usize = 0;
    #[verifier::loop_isolation(false)]
    while i < l.len()
        invariant
            i <= l@.len(),
            no_space@ == remove_spaces(l@.take(i as int)),
        decreases l@.len() - i,
    {
        proof {
            assert(l@.take(i + 1).drop_last() =~= l@.take(i as int));
            assert(l@.take(i + 1).last() == l@[i as int]);
        }
        if l[i] != ' ' {
            no_space.push(l[i]);
        }
        i = i + 1;
    }
    proof {
        assert(l@.take(l@.len() as int) =~= l@);
    }
    let mut out: Vec<char> = Vec::new();
    let mut k: usize = 0;
    let ghost f = no_space@;
    proof {
        assert(f.skip(0) =~= f);
        assert(out@ + fix_rec(f) =~= fix_rec(f));
    }
    #[verifier::loop_isolation(false)]
    while k < no_space.len()
        invariant
            k <= f.len(),
            no_space@ == f,
            fix_rec(f) == out@ + fix_rec(f.skip(k as int)),
        decreases f.len() - k,
    {
        let ghost rest = f.skip(k as int);
        proof {
            assert(rest.len() == f.len() - k);
            assert forall|j: int| 0 <= j < rest.len() implies rest[j] == f[k + j] by {}
        }
        if no_space.len() - k >= 3 && no_space[k] == 'r' && no_space[k + 1] == 'e' && no_space[k
            + 2] == 'c' {
            let ghost out0 = out@;
            out.push('r');
            out.push('e');
            out.push('c');
            out.push(' ');
            proof {
                reveal_strlit("rec ");
                assert(rest.skip(3) =~= f.skip(k + 3));
                assert(fix_rec(rest) == "rec "@ + fix_rec(f.skip(k + 3)));
                assert(out@ =~= out0 + "rec "@);
                assert(fix_rec(f) =~= out@ + fix_rec(f.skip(k + 3)));
            }
            k = k + 3;
        } else {
            out.push(no_space[k]);
            proof {
                assert(rest.skip(1) =~= f.skip(k + 1));
                assert(fix_rec(rest) == seq![rest[0]] + fix_rec(f.skip(k + 1)));
            }
            k = k + 1;
        }
    }
    proof {
        assert(f.skip(f.len() as int) =~= Seq::<char>::empty());
        assert(out@ + fix_rec(f.skip(f.len() as int)) =~= out@);
    }
    out
}

/// Reads one CCS program: the first non-empty, non-comment line of the
/// source, spaces removed, parsed by the grammar.  Returns the syntax
/// tree, or `None` when no such line exists or the line is not valid CCS,
/// exactly as [`spec_parse`] describes.
pub fn parse(input: &str) -> (r: Option<Node>)
    ensures
        match r {
            Some(t) => spec_parse(input@) == Some(t@),
            None => spec_parse(input@) is None,
        },
{
    let v = chars_of(input);
    proof {
        assert(v@.skip(0) =~= v@);
    }
    let line = match pick_line(&v, 0) {
        None => {
            return None;
        },
        Some(l) => l,
    };
    let fixed = fix_whitespace(&line);
    match e_expr(&fixed, 0) {
        None => None,
        Some((t, j)) => {
            if j == fixed.len() {
                Some(t)
            } else {
                None
            }
        },
    }
}

} // verus!
