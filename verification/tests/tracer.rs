use ccs_tracer::parse::parse;
use ccs_tracer::semantics::compose::{composition, is_guarded, parallel, rec_find_actions};
use ccs_tracer::semantics::recurse::recurse_sub;
use ccs_tracer::semantics::{next, Ccs, Context, Halt, Operand, Tick, Unsupported};
use ccs_tracer::tree::{action_eq, node_eq, Action, Node};

fn input(c: &str) -> Action {
    Action::In(c.to_string())
}

fn output(c: &str) -> Action {
    Action::Out(c.to_string())
}

fn prefix(a: Action, p: Node) -> Node {
    Node::Prefix(a, Box::new(p))
}

fn choice(a: Node, b: Node) -> Node {
    Node::Choice(Box::new(a), Box::new(b))
}

fn compose(a: Node, b: Node) -> Node {
    Node::Compose(Box::new(a), Box::new(b))
}

fn restrict(p: Node, a: Action) -> Node {
    Node::Restrict(Box::new(p), a)
}

fn relabel(p: Node, pairs: &[(&str, &str)]) -> Node {
    let m: Vec<(String, String)> =
        pairs.iter().map(|(k, v)| (k.to_string(), v.to_string())).collect();
    Node::Relabel(Box::new(p), m)
}

fn recurse(x: &str, p: Node) -> Node {
    Node::Recurse(x.to_string(), Box::new(p))
}

#[test]
fn complement_is_involution() {
    for a in [input("α"), output("α"), input("chan"), output("b")] {
        let twice = a.complement().complement();
        assert!(action_eq(&twice, &a));
    }
    assert_eq!(input("α").complement().channel(), "α");
}

#[test]
fn substitute_replaces_names() {
    let body = prefix(input("A"), Node::Name("x".to_string()));
    let replacement = prefix(input("B"), Node::Nil);
    let out = recurse_sub(&body, &"x".to_string(), &replacement);
    let expected = prefix(input("A"), prefix(input("B"), Node::Nil));
    assert!(node_eq(&out, &expected));
}

#[test]
fn substitute_idempotent_without_occurrences() {
    // No occurrence of "y" anywhere: substitution is the identity.
    let term = choice(prefix(input("A"), Node::Name("x".to_string())), Node::Nil);
    let replacement = prefix(input("B"), Node::Nil);
    let once = recurse_sub(&term, &"y".to_string(), &replacement);
    assert!(node_eq(&once, &term));
    // After substituting "x" with an "x"-free term, substituting again
    // changes nothing.
    let once = recurse_sub(&term, &"x".to_string(), &replacement);
    let twice = recurse_sub(&once, &"x".to_string(), &replacement);
    assert!(node_eq(&once, &twice));
}

#[test]
fn step_is_pure() {
    let term = compose(
        choice(prefix(input("α"), Node::Nil), prefix(input("β"), Node::Nil)),
        prefix(output("α"), Node::Nil),
    );
    let r1 = next(&term, Context::default());
    let r2 = next(&term, Context::default());
    match (r1, r2) {
        (Ok(Some((s1, n1))), Ok(Some((s2, n2)))) => {
            assert!(node_eq(&n1, &n2));
            assert_eq!(s1.len(), s2.len());
            for (a, b) in s1.iter().zip(s2.iter()) {
                assert_eq!(a.operation, b.operation);
                assert_eq!(a.result, b.result);
                assert_eq!(a.operand.render(), b.operand.render());
            }
        }
        _ => panic!("both calls must derive the same transition"),
    }
}

#[test]
fn sync_search_ignores_restriction() {
    // The restriction on α is deliberately ignored by the search: the
    // composition still synchronizes on α.
    let left = restrict(prefix(input("α"), Node::Nil), input("α"));
    let right = prefix(output("α"), Node::Nil);
    let r = composition(&left, &right).expect("search supported");
    let (status, reached) = r.expect("synchronization expected");
    assert!(node_eq(&reached, &compose(Node::Nil, Node::Nil)));
    let last = status.last().expect("trace not empty");
    assert_eq!(last.operation, "Compose");
    assert_eq!(last.operand.render(), "Sync on α");
}

#[test]
fn sync_search_maps_reachable_actions() {
    let term = choice(prefix(input("α"), Node::Nil), prefix(input("β"), Node::Nil));
    let (_status, map) = rec_find_actions(&term).expect("search supported");
    assert_eq!(map.len(), 2);
    assert!(action_eq(&map[0].0, &input("α")));
    assert!(action_eq(&map[1].0, &input("β")));
}

#[test]
fn relabel_under_sync_search_is_unsupported() {
    let left = relabel(prefix(input("α"), Node::Nil), &[("α", "β")]);
    let right = prefix(output("β"), Node::Nil);
    let r = composition(&left, &right);
    assert!(matches!(r, Err(Unsupported::RelabelInSync)));
    // The whole engine surfaces the same condition for the composed term.
    let term = compose(left, right);
    let r = next(&term, Context::default());
    assert!(matches!(r, Err(Unsupported::RelabelInSync)));
}

#[test]
fn synchronization_end_to_end() {
    // (α.nil + β.nil) | (!α.nil + γ.nil): one silent transition on α,
    // then nil | nil halts with no transition after exactly 1 transition.
    let term = compose(
        choice(prefix(input("α"), Node::Nil), prefix(input("β"), Node::Nil)),
        choice(prefix(output("α"), Node::Nil), prefix(input("γ"), Node::Nil)),
    );
    let mut run = Ccs::new(term);
    match run.advance() {
        Tick::Step(status) => {
            let last = status.last().expect("trace not empty");
            assert_eq!(last.operation, "Compose");
            assert_eq!(last.operand.render(), "Sync on α");
        }
        _ => panic!("first advance must synchronize"),
    }
    assert!(node_eq(&run.current, &compose(Node::Nil, Node::Nil)));
    assert!(matches!(run.advance(), Tick::Stop(Halt::NoTransition)));
    assert_eq!(run.transitions, 1);
}

#[test]
fn single_prefix_end_to_end() {
    // a.nil: one transition on a, then nil halts; count is 1.
    let term = prefix(input("a"), Node::Nil);
    let mut run = Ccs::new(term);
    match run.advance() {
        Tick::Step(status) => {
            assert_eq!(status.len(), 1);
            assert_eq!(status[0].operation, "Action");
            assert_eq!(status[0].operand.render(), "In(a)");
        }
        _ => panic!("a.nil must step once"),
    }
    assert!(node_eq(&run.current, &Node::Nil));
    assert!(matches!(run.advance(), Tick::Stop(Halt::NoTransition)));
    assert_eq!(run.transitions, 1);
}

#[test]
fn recursion_cycles_after_one_transition() {
    // _rec x.a.x: after exactly one transition the term is structurally
    // identical to the initial term, so the run halts with a cycle.
    let term = recurse("x", prefix(input("a"), Node::Name("x".to_string())));
    let initial = term.clone();
    let mut run = Ccs::new(term);
    match run.advance() {
        Tick::CycleStop(status, reached) => {
            assert!(!status.is_empty());
            assert!(node_eq(&reached, &initial));
        }
        _ => panic!("_rec x.a.x must close a cycle on its first transition"),
    }
    assert_eq!(run.transitions, 1);
    assert!(node_eq(&run.current, &initial));
}

#[test]
fn relabeling_fires_the_new_channel() {
    // a.nil[b/a] fires on channel b, not a.
    let term = relabel(prefix(input("a"), Node::Nil), &[("a", "b")]);
    let r = next(&term, Context::default()).expect("supported");
    let (status, reached) = r.expect("transition expected");
    assert_eq!(status[0].operation, "Action");
    assert_eq!(status[0].operand.render(), "In(b)");
    assert!(node_eq(&reached, &relabel(Node::Nil, &[("a", "b")])));
}

#[test]
fn choice_prefers_the_left_branch() {
    // Both branches offer a move; the left one is always taken.
    let term = choice(prefix(input("a"), Node::Nil), prefix(input("b"), Node::Nil));
    let r = next(&term, Context::default()).expect("supported");
    let (status, reached) = r.expect("transition expected");
    assert!(node_eq(&reached, &Node::Nil));
    assert_eq!(status[0].operand.render(), "In(a)");
    let last = status.last().unwrap();
    assert_eq!(last.operation, "Choice");
    assert_eq!(last.operand.render(), "Left");
}

#[test]
fn restriction_blocks_the_channel() {
    let term = restrict(prefix(input("a"), Node::Nil), input("a"));
    let r = next(&term, Context::default()).expect("supported");
    assert!(r.is_none());
}

#[test]
fn restriction_blocks_the_relabeled_channel() {
    // a.nil[b/a]\b: the action fires as b, which the restriction blocks.
    let term = restrict(relabel(prefix(input("a"), Node::Nil), &[("a", "b")]), input("b"));
    let r = next(&term, Context::default()).expect("supported");
    assert!(r.is_none());
}

#[test]
fn parallel_interleaves_left_first() {
    let term = compose(prefix(input("a"), Node::Nil), prefix(input("b"), Node::Nil));
    // No synchronization (a and b are different channels): left interleave.
    let r = parallel(
        &prefix(input("a"), Node::Nil),
        &prefix(input("b"), Node::Nil),
        Context::default(),
    )
    .expect("supported");
    let (status, reached) = r.expect("transition expected");
    assert!(node_eq(&reached, &compose(Node::Nil, prefix(input("b"), Node::Nil))));
    let last = status.last().unwrap();
    assert_eq!(last.operation, "Parallel");
    assert_eq!(last.operand.render(), "Left");
    // The full engine agrees.
    let r = next(&term, Context::default()).expect("supported");
    let (_, reached) = r.expect("transition expected");
    assert!(node_eq(&reached, &compose(Node::Nil, prefix(input("b"), Node::Nil))));
}

#[test]
fn nil_and_names_have_no_transition() {
    assert!(next(&Node::Nil, Context::default()).expect("supported").is_none());
    let name = Node::Name("x".to_string());
    assert!(next(&name, Context::default()).expect("supported").is_none());
}

#[test]
fn infix_renders_canonical_text() {
    let term = compose(
        choice(prefix(input("α"), Node::Nil), prefix(input("β"), Node::Nil)),
        prefix(output("α"), Node::Nil),
    );
    assert_eq!(term.infix(), "((α.nil + β.nil) | !α.nil)");
    let term = relabel(
        restrict(recurse("x", prefix(input("A"), Node::Name("x".to_string()))), input("B")),
        &[("A", "B"), ("C", "D")],
    );
    assert_eq!(term.infix(), "_rec x.A.x\\B[B/A,D/C]");
}

#[test]
fn operand_text_forms() {
    assert_eq!(Operand::Action(input("α")).render(), "In(α)");
    assert_eq!(Operand::Action(output("β")).render(), "Out(β)");
    assert_eq!(Operand::Left.render(), "Left");
    assert_eq!(Operand::Right.render(), "Right");
    assert_eq!(Operand::Sync("α".to_string()).render(), "Sync on α");
    assert_eq!(Operand::Bound("x".to_string()).render(), "x");
    assert_eq!(Operand::Empty.render(), "");
}

#[test]
fn guardedness_check() {
    assert!(is_guarded(&recurse("x", prefix(input("A"), Node::Name("x".to_string())))));
    assert!(!is_guarded(&recurse("x", Node::Name("x".to_string()))));
    assert!(!is_guarded(&recurse(
        "x",
        choice(Node::Name("x".to_string()), prefix(input("A"), Node::Nil)),
    )));
}

#[test]
fn parse_prefix_and_nil() {
    let t = parse("α.nil").expect("valid");
    assert!(node_eq(&t, &prefix(input("α"), Node::Nil)));
}

#[test]
fn parse_example_program() {
    let t = parse("(α.nil + β.nil) | (!α.nil + γ.nil)").expect("valid");
    let expected = compose(
        choice(prefix(input("α"), Node::Nil), prefix(input("β"), Node::Nil)),
        choice(prefix(output("α"), Node::Nil), prefix(input("γ"), Node::Nil)),
    );
    assert!(node_eq(&t, &expected));
}

#[test]
fn parse_recursion() {
    let t = parse("_rec x.α.x").expect("valid");
    let expected = recurse("x", prefix(input("α"), Node::Name("x".to_string())));
    assert!(node_eq(&t, &expected));
}

#[test]
fn parse_restriction_and_relabeling() {
    let t = parse("α.nil\\β").expect("valid");
    assert!(node_eq(&t, &restrict(prefix(input("α"), Node::Nil), input("β"))));
    let t = parse("α.nil[β/α,B/A]").expect("valid");
    assert!(node_eq(
        &t,
        &relabel(prefix(input("α"), Node::Nil), &[("α", "β"), ("A", "B")]),
    ));
}

#[test]
fn parse_skips_comments_and_blank_lines() {
    let t = parse("\n// a comment\n  // another\nα.nil\nβ.nil\n").expect("valid");
    assert!(node_eq(&t, &prefix(input("α"), Node::Nil)));
}

#[test]
fn parse_rejects_bad_input() {
    assert!(parse("").is_none());
    assert!(parse("// only a comment\n").is_none());
    assert!(parse("α.").is_none());
    assert!(parse("α.nil + ").is_none());
    assert!(parse("(α.nil").is_none());
    assert!(parse("α.nil extra").is_none());
}

#[test]
fn parse_roundtrips_through_the_driver() {
    let t = parse("A.nil | !A.nil").expect("valid");
    assert!(is_guarded(&t));
    let mut run = Ccs::new(t);
    assert!(matches!(run.advance(), Tick::Step(_)));
    assert!(matches!(run.advance(), Tick::Stop(Halt::NoTransition)));
    assert_eq!(run.transitions, 1);
}

#[test]
fn driver_reports_unsupported() {
    let term = compose(
        relabel(prefix(input("α"), Node::Nil), &[("α", "β")]),
        prefix(output("β"), Node::Nil),
    );
    let mut run = Ccs::new(term);
    assert!(matches!(run.advance(), Tick::Stop(Halt::Unsupported)));
    assert_eq!(run.transitions, 0);
}

#[test]
fn nested_relabelings_are_not_composed_transitively() {
    // a.nil[b/a][c/b]: the relabeling is a flat single-level lookup, so
    // the action fires as b (from the inner mapping), never chained to c.
    let term = relabel(relabel(prefix(input("a"), Node::Nil), &[("a", "b")]), &[("b", "c")]);
    let r = next(&term, Context::default()).expect("supported");
    let (status, _) = r.expect("transition expected");
    assert_eq!(status[0].operand.render(), "In(b)");
}

#[test]
fn later_branch_overwrites_equal_action_in_search() {
    // Both branches offer the same action: the mapping keeps one entry,
    // and the later branch's continuation wins.
    let term = choice(
        prefix(input("α"), prefix(input("B"), Node::Nil)),
        prefix(input("α"), prefix(input("C"), Node::Nil)),
    );
    let (_status, map) = rec_find_actions(&term).expect("search supported");
    assert_eq!(map.len(), 1);
    assert!(action_eq(&map[0].0, &input("α")));
    assert!(node_eq(&map[0].1, &prefix(input("C"), Node::Nil)));
}

#[test]
fn parse_restores_the_space_after_rec() {
    // All spaces are stripped, then the one that `_rec` needs is put back.
    let t = parse("_recx.α.x").expect("valid");
    let expected = recurse("x", prefix(input("α"), Node::Name("x".to_string())));
    assert!(node_eq(&t, &expected));
    let t = parse("  _rec x .  α . x  ").expect("valid");
    assert!(node_eq(&t, &expected));
}

#[test]
fn parse_accepts_boundary_action_letters() {
    let t = parse("Z.ω.nil").expect("valid");
    let expected = prefix(input("Z"), prefix(input("ω"), Node::Nil));
    assert!(node_eq(&t, &expected));
}

#[test]
fn composition_trace_marks_search_boundaries() {
    let left = prefix(input("α"), Node::Nil);
    let right = prefix(output("α"), Node::Nil);
    let r = composition(&left, &right).expect("search supported");
    let (status, _) = r.expect("synchronization expected");
    // Two boundary markers with an empty operation, one per side.
    let boundaries: Vec<&ccs_tracer::semantics::Step> =
        status.iter().filter(|s| s.operation.is_empty()).collect();
    assert_eq!(boundaries.len(), 2);
    assert_eq!(boundaries[0].operand.render(), "Left");
    assert_eq!(boundaries[1].operand.render(), "Right");
}
