use optacore::anti_patterns::{AntiPattern, AntiPatternConfig};
use optacore::model::{NodeType, OptaEdge, OptaModel, OptaNode};
use optacore::viz::{
    build_severity, is_cycle_node, node_type_to_shape, render_dot, severity_to_color, to_dot,
    to_dot_with_positions,
};

fn node(id: &str, name: &str, node_type: NodeType) -> OptaNode {
    OptaNode::new(id.to_string(), name.to_string(), node_type)
}

#[test]
fn test_to_dot_empty_model() {
    let model = OptaModel::new();
    let dot = to_dot(&model, None).unwrap();
    assert!(dot.contains("digraph Architecture"));
    assert!(dot.contains("splines=curved"));
}

#[test]
fn test_to_dot_simple_model() {
    let mut model = OptaModel::new();
    model.add_node(node("api", "API", NodeType::Container));
    model.add_node(node("db", "Database", NodeType::Container));
    model.add_edge(OptaEdge::new("api".to_string(), "db".to_string()));

    let dot = to_dot(&model, None).unwrap();
    assert!(dot.contains("\"api\""));
    assert!(dot.contains("\"db\""));
    assert!(dot.contains("\"api\" -> \"db\""));
    assert!(dot.contains("shape=component"));
}

#[test]
fn test_node_shapes() {
    assert_eq!(node_type_to_shape(&NodeType::System), "box3d");
    assert_eq!(node_type_to_shape(&NodeType::Container), "component");
    assert_eq!(node_type_to_shape(&NodeType::Component), "box");
    assert_eq!(node_type_to_shape(&NodeType::Person), "ellipse");
}

#[test]
fn test_severity_coloring() {
    assert_eq!(severity_to_color(0), "#aaddaa");
    assert_eq!(severity_to_color(200_000), "#cccccc");
    assert_eq!(severity_to_color(500_000), "#ffcc44");
    assert_eq!(severity_to_color(800_000), "#ff8844");
    assert_eq!(severity_to_color(1_500_000), "#ff4444");
}

#[test]
fn test_isolated_node_dashed_style() {
    let mut model = OptaModel::new();
    model.add_node(node("isolated", "Isolated", NodeType::Component));

    let config = AntiPatternConfig::default();
    let dot = to_dot(&model, Some(&config)).unwrap();
    assert!(dot.contains("style=\"filled,dashed\""));
}

#[test]
fn severity_bands_at_their_edges() {
    assert_eq!(severity_to_color(-1), "#aaddaa");
    assert_eq!(severity_to_color(1), "#cccccc");
    assert_eq!(severity_to_color(299_999), "#cccccc");
    assert_eq!(severity_to_color(300_000), "#ffcc44");
    assert_eq!(severity_to_color(699_999), "#ffcc44");
    assert_eq!(severity_to_color(700_000), "#ff8844");
    assert_eq!(severity_to_color(999_999), "#ff8844");
    assert_eq!(severity_to_color(1_000_000), "#ff4444");
}

const HEADER: &str = "digraph Architecture {\n  rankdir=TB;\n  splines=curved;\n  node [style=filled, fontsize=10, fontcolor=\"#333333\"];\n  edge [penwidth=1.5];\n\n";

#[test]
fn empty_document() {
    let model = OptaModel::new();
    assert_eq!(to_dot(&model, None).unwrap(), format!("{}\n}}\n", HEADER));
    assert_eq!(
        to_dot(&model, Some(&AntiPatternConfig::default())).unwrap(),
        format!("{}\n}}\n", HEADER)
    );
    assert_eq!(
        to_dot_with_positions(&model).unwrap(),
        "graph Architecture {\n  layout=neato;\n  node [style=filled, fixedsize=true, width=1.5, height=0.8, fontsize=10, fontcolor=\"#333333\"];\n\n\n}\n"
    );
}

#[test]
fn document_without_detection() {
    let mut model = OptaModel::new();
    model.add_node(node("sys", "The System", NodeType::System));
    let mut user = node("user", "User", NodeType::Person);
    user.set_position(1_234_567, 20_005_000);
    model.add_node(user);
    model.add_edge(OptaEdge::new("user".to_string(), "sys".to_string()).with_label("uses".to_string()));
    model.add_edge(OptaEdge::new("sys".to_string(), "user".to_string()).with_weight(2_000_000));
    model.add_edge(OptaEdge::new("sys".to_string(), "x".to_string()).with_weight(100_000));
    let expected = format!(
        "{}{}{}{}\n{}{}{}}}\n",
        HEADER,
        "  \"sys\" [label=\"The System\", fillcolor=\"#aaddaa\", shape=box3d, style=\"filled\"];\n",
        "  \"user\" [label=\"User\", fillcolor=\"#aaddaa\", shape=ellipse, style=\"filled\"];\n",
        "  // Position: (1.23, 20.01), Severity: 0.00\n",
        "  \"user\" -> \"sys\" [label=\"uses\", penwidth=1];\n",
        "  \"sys\" -> \"user\" [label=\"\", penwidth=1.5];\n",
        "  \"sys\" -> \"x\" [label=\"\", penwidth=0.55];\n",
    );
    assert_eq!(to_dot(&model, None).unwrap(), expected);
}

#[test]
fn document_with_patterns() {
    let mut model = OptaModel::new();
    for id in ["a", "b", "c"] {
        model.add_node(node(id, id, NodeType::Container));
    }
    model.add_node(node("lone", "Lone", NodeType::Component));
    model.add_edge(OptaEdge::new("a".to_string(), "b".to_string()));
    model.add_edge(OptaEdge::new("b".to_string(), "a".to_string()));
    model.add_edge(OptaEdge::new("c".to_string(), "a".to_string()));
    let config = AntiPatternConfig {
        bottleneck_threshold: 3,
        over_coupling_threshold: 2,
        detect_isolated: true,
    };
    let expected = format!(
        "{}{}{}{}{}{}{}{}{}\n{}{}{}\n{}{}{}}}\n",
        HEADER,
        "  \"a\" [label=\"a\", fillcolor=\"#ff4444\", shape=component, style=\"filled\", tooltip=\"Severity: 1.00\"];\n",
        "  // Severity: 1.00\n",
        "  \"b\" [label=\"b\", fillcolor=\"#ff4444\", shape=component, style=\"filled\", tooltip=\"Severity: 1.00\"];\n",
        "  // Severity: 1.00\n",
        "  \"c\" [label=\"c\", fillcolor=\"#aaddaa\", shape=component, style=\"filled\"];\n",
        "  \"lone\" [label=\"Lone\", fillcolor=\"#ffcc44\", shape=box, style=\"filled,dashed\", tooltip=\"Severity: 0.30\"];\n",
        "  // Severity: 0.30\n",
        "",
        "  \"a\" -> \"b\" [label=\"\", penwidth=3, color=\"#ff0000\"];\n",
        "  \"b\" -> \"a\" [label=\"\", penwidth=3, color=\"#ff0000\"];\n",
        "  \"c\" -> \"a\" [label=\"\", penwidth=1];\n",
        "  // Anti-patterns detected:\n",
        "  // Cycle: [\"a\", \"b\"]\n",
        "  // Isolated: lone\n",
    );
    assert_eq!(to_dot(&model, Some(&config)).unwrap(), expected);
}

#[test]
fn pattern_comments() {
    let model = OptaModel::new();
    let patterns = vec![
        AntiPattern::Cycle { nodes: vec![] },
        AntiPattern::Cycle { nodes: vec!["q\"uote".to_string()] },
        AntiPattern::Bottleneck { node_id: "hub".to_string(), in_degree: 12, severity: 2_400_000 },
        AntiPattern::OverCoupling { node_id: "god".to_string(), out_degree: 7, severity: 1_005_000 },
        AntiPattern::OverCoupling { node_id: "low".to_string(), out_degree: 0, severity: 4_999 },
        AntiPattern::IsolatedComponent { node_id: "lone".to_string() },
    ];
    let expected = format!(
        "{}\n\n{}{}{}{}{}{}{}}}\n",
        HEADER,
        "  // Anti-patterns detected:\n",
        "  // Cycle: []\n",
        "  // Cycle: [\"q\\\"uote\"]\n",
        "  // Bottleneck: hub (in_degree=12, severity=2.40)\n",
        "  // Over-coupled: god (out_degree=7, severity=1.01)\n",
        "  // Over-coupled: low (out_degree=0, severity=0.00)\n",
        "  // Isolated: lone\n",
    );
    assert_eq!(render_dot(&model, &patterns), expected);
}

#[test]
fn severity_is_the_largest_that_touches_the_node() {
    let patterns = vec![
        AntiPattern::IsolatedComponent { node_id: "n".to_string() },
        AntiPattern::Bottleneck { node_id: "n".to_string(), in_degree: 3, severity: 750_000 },
        AntiPattern::OverCoupling { node_id: "n".to_string(), out_degree: 1, severity: 100_000 },
        AntiPattern::Cycle { nodes: vec!["m".to_string(), "o".to_string()] },
    ];
    assert_eq!(build_severity(&patterns, &"n".to_string()), 750_000);
    assert_eq!(build_severity(&patterns, &"m".to_string()), 1_000_000);
    assert_eq!(build_severity(&patterns, &"x".to_string()), 0);
    assert!(is_cycle_node(&patterns, &"o".to_string()));
    assert!(!is_cycle_node(&patterns, &"n".to_string()));
}

#[test]
fn positioned_document() {
    let mut model = OptaModel::new();
    let mut a = node("a", "A", NodeType::Container);
    a.set_position(12_345_678, 0);
    model.add_node(a);
    model.add_node(node("b", "B", NodeType::Person));
    model.add_edge(OptaEdge::new("a".to_string(), "b".to_string()).with_label("calls".to_string()));
    model.add_edge(OptaEdge::new("b".to_string(), "a".to_string()));
    let expected = concat_all(&[
        "graph Architecture {\n  layout=neato;\n  node [style=filled, fixedsize=true, width=1.5, height=0.8, fontsize=10, fontcolor=\"#333333\"];\n\n",
        "  \"a\" [label=\"A\", shape=component, pos=\"12.35,0.00!\"];\n",
        "  \"b\" [label=\"B\", shape=ellipse];\n",
        "\n",
        "  \"a\" -- \"b\" [label=\"calls\"];\n",
        "  \"b\" -- \"a\" [label=\"\"];\n",
        "}\n",
    ]);
    assert_eq!(to_dot_with_positions(&model).unwrap(), expected);
}

fn concat_all(parts: &[&str]) -> String {
    parts.iter().map(|p| p.to_string()).collect()
}

#[test]
fn negative_coordinates_are_written_with_their_sign() {
    let mut model = OptaModel::new();
    let mut a = node("a", "A", NodeType::System);
    a.set_position(-1_500_000, -4_999);
    model.add_node(a);
    let dot = to_dot_with_positions(&model).unwrap();
    assert!(dot.contains("pos=\"-1.50,-0.00!\""), "{}", dot);
}
