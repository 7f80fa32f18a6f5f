use clusterit::arena::ParseArena;
use clusterit::parse::{LineAction, NodeData, NodeType, ParseState, Syntax};
use clusterit::text::get_value;

fn parse_all(content: &str, module_name: &str, syntax: Syntax) -> ParseArena<NodeData> {
    let mut state = ParseState::begin(module_name.to_string(), syntax);
    for line in content.split_inclusive('\n') {
        match state.feed_line(line).unwrap() {
            LineAction::Continue => {}
            LineAction::LoadModule(name) => panic!("unexpected module {name}"),
        }
    }
    state.finish().unwrap()
}

#[test]
fn lib_test_get_value() {
    let mut value = get_value("THIS IS AN TEST", 0, 3);
    assert_eq!(value, "THI");

    value = get_value("TH", 0, 3);
    assert_eq!(value, "TH");
}

#[test]
fn parse_test_get_value() {
    let mut value = get_value("THIS IS AN TEST", 0, 3);
    assert_eq!(value, "THI");

    value = get_value("TH", 0, 3);
    assert_eq!(value, "TH");
}

#[test]
fn parse_test_parse() {
    let test_clusterfile = "cmd echo $testfile
cmd ls -al
cmd mkdir asdf
fmd rm -r asdf


# Second step
cmd echo 'second step'
";

    let arena = parse_all(test_clusterfile, "test", Syntax::Clusterfile);

    let root = arena.root().unwrap();

    assert_eq!(root.data, NodeData::new_module(0, "test".into()));
    let mut step = arena.get_node(&root.children[0]);
    assert_eq!(
        arena.get_node(&step.children[0]).data,
        NodeData::new_with_value(NodeType::Command, 1, "echo $testfile".into())
    );
    assert_eq!(
        arena.get_node(&step.children[1]).data,
        NodeData::new_with_value(NodeType::Command, 2, "ls -al".into())
    );
    assert_eq!(
        arena.get_node(&step.children[2]).data,
        NodeData::new_with_value(NodeType::Command, 3, "mkdir asdf".into())
    );
    assert_eq!(
        arena.get_node(&step.children[3]).data,
        NodeData::new_with_value(NodeType::FallbackCommand, 4, "rm -r asdf".into())
    );

    step = arena.get_node(&root.children[1]);
    assert_eq!(
        arena.get_node(&step.children[0]).data,
        NodeData::new_with_value(NodeType::Comment, 7, " Second step".into())
    );
    assert_eq!(
        arena.get_node(&step.children[1]).data,
        NodeData::new_with_value(NodeType::Command, 8, "echo 'second step'".into())
    );
}

#[test]
fn get_value_clips_both_ends() {
    assert_eq!(get_value("abc", 5, 9), "");
    assert_eq!(get_value("abc", 2, 1), "");
    assert_eq!(get_value("abcdef", 1, 4), "bcd");
    assert_eq!(get_value("héllo", 1, 3), "él");
}

#[test]
fn trim_removes_unicode_white_space() {
    assert_eq!(clusterit::text::trim("  \tcmd x \u{a0}\n"), "cmd x");
    assert_eq!(clusterit::text::trim(" \n "), "");
}

#[test]
fn invalid_expression_reports_line_and_keyword() {
    let mut state = ParseState::begin("m".to_string(), Syntax::Clusterfile);
    state.feed_line("cmd a\n").unwrap();
    match state.feed_line("run b\n") {
        Err(clusterit::error::Error::ParseError { line, message }) => {
            assert_eq!(line, 2);
            assert_eq!(message, "Invalid expression: run");
        }
        _ => panic!("expected a parse error"),
    }
}

#[test]
fn whitespace_only_line_is_invalid() {
    let mut state = ParseState::begin("m".to_string(), Syntax::Clusterfile);
    let e = state.feed_line("   \n").unwrap_err();
    assert_eq!(e.message(), "[Line 1]: Invalid expression: ");
}

#[test]
fn module_line_asks_for_module_and_attaches_it() {
    let mut state = ParseState::begin("main".to_string(), Syntax::Clusterfile);
    state.feed_line("cmd a\n").unwrap();
    match state.feed_line("mod other.cf\n").unwrap() {
        LineAction::LoadModule(name) => assert_eq!(name, "other.cf"),
        LineAction::Continue => panic!("expected a module request"),
    }
    let mut sub = ParseState::begin("other.cf".to_string(), Syntax::Clusterfile);
    sub.feed_line("cmd b\n").unwrap();
    let sub_arena = sub.finish().unwrap();
    state.attach_module(sub_arena);
    let arena = state.finish().unwrap();
    assert_eq!(arena.count(), 6);
    // The module's root hangs below the step; the module keeps its tree.
    let step = arena.get_node(&arena.root().unwrap().children[0]);
    assert_eq!(step.children.len(), 2);
    assert_eq!(step.children[1].index(), 3);
    let sub_root = arena.get_node(&step.children[1]);
    assert_eq!(sub_root.data, NodeData::new_module(0, "other.cf".into()));
    assert_eq!(sub_root.parent.unwrap().index(), 1);
    assert_eq!(sub_root.children.len(), 1);
    assert_eq!(sub_root.children[0].index(), 4);
    let sub_step = arena.get_node(&sub_root.children[0]);
    assert_eq!(sub_step.parent.unwrap().index(), 3);
    assert_eq!(sub_step.children[0].index(), 5);
    assert_eq!(
        arena.get_node(&sub_step.children[0]).data,
        NodeData::new_with_value(NodeType::Command, 1, "b".into())
    );
}

#[test]
fn empty_module_is_refused() {
    let mut state = ParseState::begin("empty".to_string(), Syntax::Clusterfile);
    state.feed_line("\n").unwrap();
    match state.finish() {
        Err(clusterit::error::Error::ParseError { line, message }) => {
            assert_eq!(line, 0);
            assert_eq!(message, "Module empty must contain at least one expression.");
        }
        _ => panic!("expected a parse error"),
    }
}

#[test]
fn trailing_step_is_removed() {
    let arena = parse_all("cmd a\n\n\n", "m", Syntax::Clusterfile);
    assert_eq!(arena.count(), 3);
    assert_eq!(arena.get_node(&arena.last().unwrap()).data.node_type, NodeType::Command);
    let root = arena.root().unwrap();
    assert_eq!(root.children.len(), 1);
    assert_eq!(root.children[0].index(), 1);
    assert_eq!(arena.render(), "Module (m)\n\tStep \n\t\tCommand (a)");
}

#[test]
fn basic_syntax() {
    let mut state = ParseState::begin("m".to_string(), Syntax::Basic);
    state.feed_line("# note\n").unwrap();
    state.feed_line("fmd x\n").unwrap();
    assert!(state.feed_line("cpy y\n").is_err());
    let arena = state.finish().unwrap();
    let root = arena.root().unwrap();
    let step = arena.get_node(&root.children[0]);
    assert_eq!(step.children.len(), 1);
    assert_eq!(
        arena.get_node(&step.children[0]).data,
        NodeData::new_with_value(NodeType::Command, 2, "x".into())
    );
    let comment = arena.get_node(&clusterit::arena::NodeId::new(2));
    assert_eq!(comment.data, NodeData::new_with_value(NodeType::Comment, 1, " note".into()));
    assert!(comment.parent.is_none());
}

#[test]
fn parser_parse_line_uses_basic_syntax() {
    let mut parser = clusterit::parse::Parser::new("/tmp".to_string());
    assert_eq!(parser.cwd(), "/tmp");
    let mut arena = ParseArena::new();
    let root = arena.add_node(NodeData::new_module(0, "m".into()));
    parser.parse_line(&mut arena, root, 1, "fmd z").unwrap();
    assert_eq!(
        arena.get_node(&arena.get_node(&root).children[0]).data,
        NodeData::new_with_value(NodeType::Command, 1, "z".into())
    );
    let mut arena2 = ParseArena::new();
    let root2 = arena2.add_node(NodeData::new_module(0, "m".into()));
    clusterit::parse::parse_line(&mut arena2, root2, 1, "fmd z").unwrap();
    assert_eq!(
        arena2.get_node(&arena2.get_node(&root2).children[0]).data,
        NodeData::new_with_value(NodeType::FallbackCommand, 1, "z".into())
    );
}
