use flowrs::attr::{escaped, Attr, Shape};
use flowrs::dot_writer::DotWriter;
use flowrs::edge::Edge;
use flowrs::flow::{dotify_all, make_dot, make_id_generator, node_count, stmt_node_count, Stmt};
use flowrs::node::Node;
use flowrs::text::decimal_string;

fn step(t: &str) -> Stmt {
    Stmt::Step(t.to_string())
}

fn lines(s: &str) -> Vec<&str> {
    s.lines().collect()
}

fn connection_lines(s: &str) -> Vec<&str> {
    s.lines().filter(|l| l.contains(" -> ")).collect()
}

#[test]
fn single_step_is_marked_terminal() {
    let dot = make_dot(&vec![step("test")]);
    assert_eq!(
        dot,
        "strict digraph {\nn0 [label=\"test\", shape=\"rectangle\", ];\nn0 [label=\"test\", shape=\"rectangle\", color=red, penwidth=3, ];\n}\n"
    );
    assert!(dot.starts_with("strict digraph {"));
    assert!(dot.ends_with("}\n"));
    assert_eq!(connection_lines(&dot).len(), 0);
}

#[test]
fn empty_program() {
    assert_eq!(make_dot(&vec![]), "strict digraph {\n\n}\n");
}

#[test]
fn sequence_connects_each_statement_once() {
    let dot = make_dot(&vec![step("a"), step("b"), step("c"), step("d")]);
    assert_eq!(connection_lines(&dot), vec!["n0 -> n1;", "n1 -> n2;", "n2 -> n3;"]);
}

#[test]
fn step_then_exit() {
    let dot = make_dot(&vec![step("a"), Stmt::Exit]);
    assert_eq!(
        lines(&dot),
        vec![
            "strict digraph {",
            "n0 [label=\"a\", shape=\"rectangle\", ];",
            "n1 [label=\"Exit\", shape=\"rectangle\", ];",
            "n0 -> n1;",
            "}",
        ]
    );
    assert!(!dot.contains("color=red"));
}

#[test]
fn if_without_else_falls_through() {
    let prog = vec![
        step("step_a"),
        Stmt::If("C".to_string(), vec![step("step_b")], None),
        step("step_c"),
    ];
    let dot = make_dot(&prog);
    assert_eq!(
        lines(&dot),
        vec![
            "strict digraph {",
            "n0 [label=\"step_a\", shape=\"rectangle\", ];",
            "n1 [label=\"C\", shape=\"diamond\", ];",
            "n0 -> n1;",
            "n2 [label=\"step_b\", shape=\"rectangle\", ];",
            "n1 -> n2 [label=\"True\"];",
            "n3 [label=\"step_c\", shape=\"rectangle\", ];",
            "n2 -> n3;",
            "n1 -> n3 [label=\"False\"];",
            "n3 [label=\"step_c\", shape=\"rectangle\", color=red, penwidth=3, ];",
            "}",
        ]
    );
    let into_c: Vec<&str> = connection_lines(&dot).into_iter().filter(|l| l.contains("-> n3")).collect();
    assert_eq!(into_c.len(), 2);
}

#[test]
fn if_with_else_joins_both_branches() {
    let prog = vec![
        Stmt::If("C".to_string(), vec![step("yes")], Some(vec![step("no")])),
        step("after"),
    ];
    let dot = make_dot(&prog);
    assert_eq!(
        connection_lines(&dot),
        vec!["n0 -> n1 [label=\"True\"];", "n0 -> n2 [label=\"False\"];", "n1 -> n3;", "n2 -> n3;"]
    );
}

#[test]
fn while_loops_back_to_condition() {
    let prog = vec![Stmt::While("C".to_string(), vec![step("step_a")])];
    let dot = make_dot(&prog);
    assert_eq!(
        lines(&dot),
        vec![
            "strict digraph {",
            "n0 [label=\"C\", shape=\"diamond\", ];",
            "n1 [label=\"step_a\", shape=\"rectangle\", ];",
            "n0 -> n1 [label=\"True\"];",
            "n1 -> n0;",
            "n0 [label=\"C\", shape=\"diamond\", color=red, penwidth=3, ];",
            "}",
        ]
    );
}

#[test]
fn while_with_branching_body_has_one_back_edge_per_exit() {
    let prog = vec![
        Stmt::While("C".to_string(), vec![Stmt::If("D".to_string(), vec![step("x")], None)]),
        step("done"),
    ];
    let dot = make_dot(&prog);
    let back: Vec<&str> = connection_lines(&dot).into_iter().filter(|l| l.contains("-> n0")).collect();
    assert_eq!(back, vec!["n2 -> n0;", "n1 -> n0 [label=\"False\"];"]);
    assert!(dot.contains("n0 -> n3 [label=\"False\"];"));
}

#[test]
fn exit_inside_branch_is_not_marked() {
    let prog = vec![Stmt::If("C".to_string(), vec![Stmt::Exit], None)];
    let dot = make_dot(&prog);
    assert!(dot.contains("n0 -> n1 [label=\"True\"];"));
    assert!(dot.contains("n0 [label=\"C\", shape=\"diamond\", color=red, penwidth=3, ];"));
    assert!(!dot.contains("n1 [label=\"Exit\", shape=\"rectangle\", color=red"));
}

#[test]
fn first_label_wins() {
    let n = Node::new("n7".to_string()).labelled("first".to_string()).labelled("second".to_string());
    assert_eq!(n.attrs.len(), 1);
    assert_eq!(n.attrs[0].as_dot(), "label=\"first\"");
    let mut w = DotWriter::new();
    w.write_node(&n);
    assert_eq!(w.consume(), "n7 [label=\"first\", ];\n");
}

#[test]
fn shape_kind_is_kept_once() {
    let n = Node::new("x".to_string()).diamond().rectangle();
    assert_eq!(n.attrs.len(), 1);
    assert_eq!(n.attrs[0].as_dot(), "shape=\"diamond\"");
}

#[test]
fn terminal_adds_color_and_width() {
    let n = Node::new("x".to_string()).rectangle().terminal();
    let shown: Vec<String> = n.attrs.iter().map(|a| a.as_dot()).collect();
    assert_eq!(shown, vec!["shape=\"rectangle\"", "color=red", "penwidth=3"]);
    let again = n.red().bold();
    assert_eq!(again.attrs.len(), 3);
}

#[test]
fn identifiers_are_unique() {
    let mut ids = make_id_generator();
    let made: Vec<String> = (0..25).map(|_| ids.next_id()).collect();
    assert_eq!(made[0], "n0");
    assert_eq!(made[10], "n10");
    assert_eq!(made[24], "n24");
    for i in 0..made.len() {
        for j in (i + 1)..made.len() {
            assert_ne!(made[i], made[j]);
        }
    }
}

#[test]
fn nested_program_declares_unique_nodes() {
    let prog = vec![
        step("a"),
        Stmt::While(
            "w".to_string(),
            vec![Stmt::If("i".to_string(), vec![step("b"), Stmt::Exit], Some(vec![step("c")]))],
        ),
        step("d"),
    ];
    let dot = make_dot(&prog);
    let mut declared: Vec<&str> = dot
        .lines()
        .filter(|l| l.starts_with('n') && !l.contains(" -> "))
        .map(|l| l.split(' ').next().unwrap())
        .collect();
    // the last declaration re-marks the final node
    assert_eq!(declared.pop(), Some("n6"));
    let n = declared.len();
    declared.sort();
    declared.dedup();
    assert_eq!(declared.len(), n);
    assert_eq!(n, 7);
}

#[test]
fn dotify_all_continues_the_counter() {
    let mut ids = make_id_generator();
    let _ = ids.next_id();
    let text = dotify_all(&vec![step("s")], &mut ids);
    assert!(text.starts_with("n1 [label=\"s\""));
    assert_eq!(ids.next_id(), "n2");
}

#[test]
fn escaping_quotes() {
    assert_eq!(escaped(&"say \"hi\"".to_string()), "say \\\"hi\\\"");
    assert_eq!(escaped(&"".to_string()), "");
    assert_eq!(escaped(&"plain".to_string()), "plain");
}

#[test]
fn attributes_render() {
    assert_eq!(Attr::Label("a \"b\"".to_string()).as_dot(), "label=\"a \\\"b\\\"\"");
    assert_eq!(Attr::Color("blue".to_string()).as_dot(), "color=blue");
    assert_eq!(Attr::PenWidth(12).as_dot(), "penwidth=12");
    assert_eq!(Attr::Shape(Shape::Diamond).as_dot(), "shape=\"diamond\"");
    assert_eq!(Shape::Rectangle.as_dot(), "rectangle");
}

#[test]
fn attributes_compare_by_kind() {
    assert!(Attr::Label("a".to_string()) == Attr::Label("b".to_string()));
    assert!(Attr::PenWidth(1) != Attr::Color("1".to_string()));
}

#[test]
fn label_with_quote_in_program() {
    let dot = make_dot(&vec![step("say \"x\"")]);
    assert!(dot.contains("n0 [label=\"say \\\"x\\\"\", shape=\"rectangle\", ];"));
}

#[test]
fn decimal_text() {
    assert_eq!(decimal_string(0), "0");
    assert_eq!(decimal_string(7), "7");
    assert_eq!(decimal_string(1050), "1050");
    assert_eq!(decimal_string(usize::MAX), usize::MAX.to_string());
}

#[test]
fn edges_and_writer() {
    let e = Edge::starting_at(Node::new("n4".to_string())).labelled("True".to_string());
    assert_eq!(e.start_id(), "n4");
    let end = Node::new("n5".to_string());
    let mut w = DotWriter::new();
    w.write_edge(&e, &end);
    w.write_edge(&Edge::starting_at(Node::new("n6".to_string())), &end);
    w.write_line("   padded line \t");
    assert_eq!(w.consume(), "n4 -> n5 [label=\"True\"];\nn6 -> n5;\npadded line\n");
}

#[test]
fn counting_nodes() {
    let prog = vec![
        step("a"),
        Stmt::If("c".to_string(), vec![step("b")], Some(vec![step("x"), Stmt::Exit])),
        Stmt::While("w".to_string(), vec![]),
    ];
    assert_eq!(node_count(&prog), Some(6));
    assert_eq!(node_count(&vec![]), Some(0));
    assert_eq!(stmt_node_count(&Stmt::Exit), Some(1));
}
