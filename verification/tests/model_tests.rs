use optacore::model::{NodeType, OptaEdge, OptaModel, OptaNode};

#[test]
fn lib_test_node_creation() {
    let node = OptaNode::new(
        "user_service".to_string(),
        "User Service".to_string(),
        NodeType::Container,
    );
    assert_eq!(node.id, "user_service");
    assert_eq!(node.name, "User Service");
}

#[test]
fn model_test_node_creation() {
    let node = OptaNode::new("api".to_string(), "API Gateway".to_string(), NodeType::Container);
    assert_eq!(node.id, "api");
    assert_eq!(node.name, "API Gateway");
    assert_eq!(node.node_type, NodeType::Container);
}

#[test]
fn test_edge_creation() {
    let edge = OptaEdge::new("api".to_string(), "db".to_string())
        .with_label("queries".to_string())
        .with_weight(2_000_000);
    assert_eq!(edge.from, "api");
    assert_eq!(edge.to, "db");
    assert_eq!(edge.label, Some("queries".to_string()));
    assert_eq!(edge.weight, 2_000_000);
}

#[test]
fn test_model_building() {
    let mut model = OptaModel::new();

    model.add_node(OptaNode::new("api".to_string(), "API".to_string(), NodeType::Container));
    model.add_node(OptaNode::new("db".to_string(), "Database".to_string(), NodeType::Container));
    model.add_edge(OptaEdge::new("api".to_string(), "db".to_string()));

    assert_eq!(model.node_count(), 2);
    assert_eq!(model.edge_count(), 1);

    model.build_adjacency_matrix();
    assert!(model.adjacency_matrix.is_some());
}

#[test]
fn test_node_position() {
    let mut node = OptaNode::new("test".to_string(), "Test Node".to_string(), NodeType::Component);

    node.set_position(100_000_000, 200_000_000);
    let pos = node.get_position().unwrap();
    assert_eq!(pos, (100_000_000, 200_000_000));
}

#[test]
fn constructed_node_has_no_position() {
    let node = OptaNode::new("n".to_string(), "N".to_string(), NodeType::Person)
        .with_description("d".to_string())
        .with_technology("t".to_string());
    assert!(node.get_position().is_none());
    assert_eq!(node.description, Some("d".to_string()));
    assert_eq!(node.technology, Some("t".to_string()));
}

#[test]
fn adding_invalidates_the_matrix() {
    let mut model = OptaModel::new();
    model.build_adjacency_matrix();
    assert!(model.adjacency_matrix.is_none());
    model.add_node(OptaNode::new("a".to_string(), "A".to_string(), NodeType::System));
    model.build_adjacency_matrix();
    assert_eq!(model.adjacency_matrix, Some(vec![vec![0]]));
    model.add_edge(OptaEdge::new("a".to_string(), "a".to_string()));
    assert!(model.adjacency_matrix.is_none());
    model.build_adjacency_matrix();
    assert_eq!(model.adjacency_matrix, Some(vec![vec![1_000_000]]));
    model.add_node(OptaNode::new("b".to_string(), "B".to_string(), NodeType::System));
    assert!(model.adjacency_matrix.is_none());
}

#[test]
fn later_edges_overwrite_and_dangling_edges_are_skipped() {
    let mut model = OptaModel::new();
    for id in ["a", "b", "c"] {
        model.add_node(OptaNode::new(id.to_string(), id.to_string(), NodeType::Component));
    }
    model.add_edge(OptaEdge::new("a".to_string(), "b".to_string()).with_weight(2_500_000));
    model.add_edge(OptaEdge::new("a".to_string(), "b".to_string()).with_weight(500_000));
    model.add_edge(OptaEdge::new("c".to_string(), "a".to_string()).with_weight(-3));
    model.add_edge(OptaEdge::new("a".to_string(), "nowhere".to_string()));
    model.add_edge(OptaEdge::new("nowhere".to_string(), "a".to_string()));
    model.build_adjacency_matrix();
    assert_eq!(
        model.adjacency_matrix,
        Some(vec![vec![0, 500_000, 0], vec![0, 0, 0], vec![-3, 0, 0]])
    );
    assert_eq!(model.edge_count(), 5);
}

#[test]
fn duplicate_identifiers() {
    let mut model = OptaModel::new();
    model.add_node(OptaNode::new("x".to_string(), "first".to_string(), NodeType::System));
    model.add_node(OptaNode::new("y".to_string(), "other".to_string(), NodeType::System));
    model.add_node(OptaNode::new("x".to_string(), "second".to_string(), NodeType::System));
    // Lookup finds the first node of an identifier.
    assert_eq!(model.find_node("x").unwrap().name, "first");
    assert!(model.find_node("z").is_none());
    model.find_node_mut("x").unwrap().set_position(1, 2);
    assert_eq!(model.nodes[0].get_position(), Some((1, 2)));
    assert_eq!(model.nodes[2].get_position(), None);
    assert!(model.find_node_mut("z").is_none());
    assert_eq!(model.position_of(&"x".to_string()), Some(0));
    // The matrix resolves an identifier to its last node.
    assert_eq!(model.resolve(&"x".to_string()), Some(2));
    model.add_edge(OptaEdge::new("y".to_string(), "x".to_string()));
    model.build_adjacency_matrix();
    assert_eq!(
        model.adjacency_matrix,
        Some(vec![vec![0, 0, 0], vec![0, 0, 1_000_000], vec![0, 0, 0]])
    );
}

#[test]
fn default_model_is_empty() {
    let model = OptaModel::default();
    assert_eq!(model.node_count(), 0);
    assert_eq!(model.edge_count(), 0);
    assert!(model.adjacency_matrix.is_none());
}
