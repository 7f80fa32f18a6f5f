use clusterit::arena::{NodeId, ParseArena};
use clusterit::parse::{LineAction, NodeData, NodeType, ParseState, Syntax};

fn parse_all(content: &str, syntax: Syntax) -> ParseArena<NodeData> {
    let mut state = ParseState::begin("m".to_string(), syntax);
    for line in content.split_inclusive('\n') {
        match state.feed_line(line).unwrap() {
            LineAction::Continue => {}
            LineAction::LoadModule(name) => panic!("unexpected module {name}"),
        }
    }
    state.finish().unwrap()
}

#[test]
fn arena_add_get_remove() {
    let mut arena: ParseArena<NodeData> = ParseArena::new();
    assert!(arena.last().is_none());
    let a = arena.add_node(NodeData::new_step(1));
    let b = arena.add_node(NodeData::new_step(2));
    assert_eq!(a.index(), 0);
    assert_eq!(b.index(), 1);
    assert_eq!(arena.last().unwrap().index(), 1);
    assert_eq!(arena.get_node(&b).data, NodeData::new_step(2));
    arena.make_parent(a, b);
    assert_eq!(arena.get_node(&a).children.len(), 1);
    assert_eq!(arena.get_node(&a).children[0].index(), 1);
    assert_eq!(arena.get_node(&b).parent.unwrap().index(), 0);
    arena.get_node_mut(&b).data.lineno = 7;
    assert_eq!(arena.get_node(&b).data.lineno, 7);
    arena.remove_node(&b);
    assert_eq!(arena.count(), 1);
}

#[test]
fn arena_append_shifts_the_appended_tree() {
    let mut arena: ParseArena<NodeData> = ParseArena::new();
    arena.add_node(NodeData::new_step(0));
    arena.add_node(NodeData::new_step(1));
    let mut other: ParseArena<NodeData> = ParseArena::new();
    let a = other.add_node(NodeData::new_step(5));
    let b = other.add_node(NodeData::new_step(6));
    other.add_node(NodeData::new_step(7));
    other.make_parent(a, b);
    let (start, end) = arena.append(other);
    assert_eq!(start.index(), 2);
    assert_eq!(end.index(), 4);
    assert_eq!(arena.count(), 5);
    assert_eq!(arena.get_node(&NodeId::new(4)).data.lineno, 7);
    assert_eq!(arena.get_node(&NodeId::new(2)).children[0].index(), 3);
    assert_eq!(arena.get_node(&NodeId::new(3)).parent.unwrap().index(), 2);
    assert!(arena.get_node(&NodeId::new(2)).parent.is_none());
}

#[test]
fn render_shows_tree_depth_first() {
    let arena = parse_all("cmd a\n# c\n\narg x\n", Syntax::Clusterfile);
    let text = arena.render();
    assert_eq!(
        text,
        "Module (m)\n\tStep \n\t\tCommand (a)\n\t\tComment ( c)\n\tStep \n\t\tArgument (x)"
    );
}

#[test]
fn render_refuses_dangling_child() {
    // Removing a node without unlinking it leaves its parent a link to it.
    let mut arena: ParseArena<NodeData> = ParseArena::new();
    let r = arena.add_node(NodeData::new_module(0, "m".into()));
    let s = arena.add_node(NodeData::new_step(1));
    arena.make_parent(r, s);
    arena.remove_node(&s);
    assert!(arena.try_render().is_none());
    // A clusterfile that ends with a blank line drops its last step with
    // the link to it.
    let parsed = parse_all("cmd a\n\n", Syntax::Clusterfile);
    assert_eq!(parsed.count(), 3);
    assert!(parsed.try_render().is_some());
}

#[test]
fn render_empty_arena() {
    let arena: ParseArena<NodeData> = ParseArena::new();
    assert_eq!(arena.render(), "");
}

#[test]
fn render_follows_parents_to_root() {
    let mut arena: ParseArena<NodeData> = ParseArena::new();
    let a = arena.add_node(NodeData::new_with_value(NodeType::Command, 1, "x".into()));
    let b = arena.add_node(NodeData::new_module(0, "top".into()));
    arena.make_parent(b, a);
    // The first node's parent is the root, which is shown first.
    assert_eq!(arena.try_render().unwrap(), "Module (top)\n\tCommand (x)");
    let mut arena2: ParseArena<NodeData> = ParseArena::new();
    let r = arena2.add_node(NodeData::new_module(0, "top".into()));
    let c = arena2.add_node(NodeData::new_step(0));
    arena2.make_parent(r, c);
    assert_eq!(arena2.render(), "Module (top)\n\tStep ");
    let _ = b;
}

#[test]
fn node_labels() {
    assert_eq!(NodeData::new_step(3).label(), "Step ");
    assert_eq!(
        NodeData::new_with_value(NodeType::FallbackCommand, 2, "rm x".into()).label(),
        "FallbackCommand (rm x)"
    );
    assert_eq!(NodeType::Copy.name(), "Copy");
}

#[test]
fn expressions_hang_below_steps() {
    let arena = parse_all("cmd a\nfmd b\n\n\ncpy c\n# d\narg e\n", Syntax::Clusterfile);
    let mut steps = 0;
    for i in 1..arena.count() {
        let node = arena.get_node(&NodeId::new(i));
        let parent = node.parent.unwrap();
        if node.data.node_type == NodeType::Step {
            steps += 1;
            assert_eq!(parent.index(), 0);
        } else {
            assert_eq!(arena.get_node(&parent).data.node_type, NodeType::Step);
            assert!(parent.index() < i);
        }
    }
    assert_eq!(steps, 2);
    assert_eq!(arena.count(), 8);
}

#[test]
fn make_parent_links_both_ways() {
    let mut arena: ParseArena<NodeData> = ParseArena::new();
    let r = arena.add_node(NodeData::new_step(0));
    let a = arena.add_node(NodeData::new_step(1));
    let b = arena.add_node(NodeData::new_step(2));
    arena.make_parent(r, a);
    arena.make_parent(a, b);
    for i in 0..arena.count() {
        let node = arena.get_node(&NodeId::new(i));
        for c in node.children.iter() {
            assert_eq!(arena.get_node(c).parent.unwrap().index(), i);
        }
    }
    assert!(arena.get_node(&r).parent.is_none());
    assert_eq!(arena.get_node(&b).parent.unwrap().index(), 1);
}

#[test]
fn render_arena_of_strings_depth_first() {
    let mut a: ParseArena<String> = ParseArena::new();
    let r = a.add_node("r".to_string());
    let x = a.add_node("a".to_string());
    let y = a.add_node("c".to_string());
    let z = a.add_node("b".to_string());
    a.make_parent(r, x);
    a.make_parent(x, y);
    a.make_parent(r, z);
    assert_eq!(a.render(), "r\n\ta\n\t\tc\n\tb");
}
