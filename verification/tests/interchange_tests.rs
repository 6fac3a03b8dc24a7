use optacore::anti_patterns::{AntiPattern, AntiPatternConfig};
use optacore::error::{Missing, OptaError, Threshold};
use optacore::interchange::{
    config_from, json_to_model, node_type_from_name, node_type_from_tag, node_type_name,
    node_type_tag, pattern_description, pattern_kind, pattern_severity, EdgeRecord, ModelRecord,
    NodeRecord,
};
use optacore::model::NodeType;
use optacore::text::is_blank;

fn node(id: Option<&str>) -> NodeRecord {
    NodeRecord {
        id: id.map(|s| s.to_string()),
        name: None,
        node_type: None,
        technology: None,
        description: None,
        position: None,
    }
}

fn edge(from: Option<&str>, to: Option<&str>) -> EdgeRecord {
    EdgeRecord { from: from.map(|s| s.to_string()), to: to.map(|s| s.to_string()), label: None, weight: None }
}

#[test]
fn model_of_a_payload() {
    let record = ModelRecord {
        nodes: Some(vec![
            NodeRecord {
                id: Some("api".to_string()),
                name: Some("API".to_string()),
                node_type: Some("Container".to_string()),
                technology: Some("Rust".to_string()),
                description: Some("the gateway".to_string()),
                position: Some((1_500_000, -2_000_000)),
            },
            node(Some("db")),
            NodeRecord { node_type: Some("container".to_string()), ..node(Some("odd")) },
        ]),
        edges: Some(vec![
            EdgeRecord { label: Some("reads".to_string()), weight: Some(2_500_000), ..edge(Some("api"), Some("db")) },
            edge(Some("db"), Some("nowhere")),
        ]),
    };
    let model = json_to_model(&record).unwrap();
    assert_eq!(model.node_count(), 3);
    assert_eq!(model.edge_count(), 2);
    assert!(model.adjacency_matrix.is_none());
    let api = &model.nodes[0];
    assert_eq!(api.id, "api");
    assert_eq!(api.name, "API");
    assert_eq!(api.node_type, NodeType::Container);
    assert_eq!(api.technology, Some("Rust".to_string()));
    assert_eq!(api.description, Some("the gateway".to_string()));
    assert_eq!(api.get_position(), Some((1_500_000, -2_000_000)));
    let db = &model.nodes[1];
    assert_eq!(db.name, "");
    assert_eq!(db.node_type, NodeType::System);
    assert_eq!(db.get_position(), None);
    // Names of types are matched as they are written.
    assert_eq!(model.nodes[2].node_type, NodeType::System);
    assert_eq!(model.edges[0].label, Some("reads".to_string()));
    assert_eq!(model.edges[0].weight, 2_500_000);
    assert_eq!(model.edges[1].weight, 1_000_000);
    assert_eq!(model.edges[1].label, None);
}

#[test]
fn malformed_payloads() {
    let missing = |record: &ModelRecord| json_to_model(record).err();
    assert_eq!(
        missing(&ModelRecord { nodes: None, edges: None }),
        Some(OptaError::MalformedInterchange(Missing::Nodes))
    );
    assert_eq!(
        missing(&ModelRecord { nodes: Some(vec![node(None)]), edges: None }),
        Some(OptaError::MalformedInterchange(Missing::Edges))
    );
    assert_eq!(
        missing(&ModelRecord {
            nodes: Some(vec![node(Some("a")), node(None)]),
            edges: Some(vec![edge(None, None)]),
        }),
        Some(OptaError::MalformedInterchange(Missing::NodeId))
    );
    assert_eq!(
        missing(&ModelRecord {
            nodes: Some(vec![]),
            edges: Some(vec![edge(Some("a"), Some("b")), edge(Some("a"), None), edge(None, Some("b"))]),
        }),
        Some(OptaError::MalformedInterchange(Missing::EdgeTo))
    );
    assert_eq!(
        missing(&ModelRecord { nodes: Some(vec![]), edges: Some(vec![edge(None, None)]) }),
        Some(OptaError::MalformedInterchange(Missing::EdgeFrom))
    );
    let empty = json_to_model(&ModelRecord { nodes: Some(vec![]), edges: Some(vec![]) }).unwrap();
    assert_eq!(empty.node_count(), 0);
}

#[test]
fn error_messages() {
    assert_eq!(OptaError::EmptyModel.message(), "Cannot optimize empty model");
    assert_eq!(
        OptaError::MatrixNotBuilt.message(),
        "Adjacency matrix not built. Call build_adjacency_matrix() first"
    );
    assert_eq!(
        OptaError::InvalidConfiguration(Threshold::Bottleneck).message(),
        "Invalid bottleneck_threshold: 0 (must be >= 1)"
    );
    assert_eq!(
        OptaError::InvalidConfiguration(Threshold::OverCoupling).message(),
        "Invalid over_coupling_threshold: 0 (must be >= 1)"
    );
    assert_eq!(OptaError::MalformedInterchange(Missing::Nodes).message(), "Missing 'nodes' array");
    assert_eq!(OptaError::MalformedInterchange(Missing::Edges).message(), "Missing 'edges' array");
    assert_eq!(OptaError::MalformedInterchange(Missing::NodeId).message(), "Node missing 'id'");
    assert_eq!(OptaError::MalformedInterchange(Missing::EdgeFrom).message(), "Edge missing 'from'");
    assert_eq!(OptaError::MalformedInterchange(Missing::EdgeTo).message(), "Edge missing 'to'");
}

#[test]
fn configuration_of_a_payload() {
    assert_eq!(config_from(None, None), Ok(AntiPatternConfig::default()));
    assert_eq!(
        config_from(Some(1), Some(12)),
        Ok(AntiPatternConfig { bottleneck_threshold: 1, over_coupling_threshold: 12, detect_isolated: true })
    );
    assert_eq!(config_from(Some(0), Some(0)), Err(OptaError::InvalidConfiguration(Threshold::Bottleneck)));
    assert_eq!(config_from(None, Some(0)), Err(OptaError::InvalidConfiguration(Threshold::OverCoupling)));
}

#[test]
fn names_of_node_types() {
    for node_type in [NodeType::System, NodeType::Container, NodeType::Component, NodeType::Person] {
        assert_eq!(node_type_from_name(Some(node_type_name(node_type))), node_type);
        assert_eq!(node_type_from_tag(node_type_tag(node_type)), Some(node_type));
    }
    assert_eq!(node_type_name(NodeType::Person), "Person");
    assert_eq!(node_type_tag(NodeType::Person), "person");
    assert_eq!(node_type_from_name(None), NodeType::System);
    assert_eq!(node_type_from_name(Some("Gadget")), NodeType::System);
    assert_eq!(node_type_from_tag("Person"), None);
    assert_eq!(node_type_from_tag(""), None);
}

#[test]
fn patterns_in_a_payload() {
    let cycle = AntiPattern::Cycle { nodes: vec!["a".to_string(), "b".to_string()] };
    let hub = AntiPattern::Bottleneck { node_id: "h".to_string(), in_degree: 12, severity: 2_400_000 };
    let god = AntiPattern::OverCoupling { node_id: "g".to_string(), out_degree: 9, severity: 1_285_714 };
    let lone = AntiPattern::IsolatedComponent { node_id: "l".to_string() };
    assert_eq!(pattern_kind(&cycle), "Cycle");
    assert_eq!(pattern_kind(&hub), "Bottleneck");
    assert_eq!(pattern_kind(&god), "OverCoupling");
    assert_eq!(pattern_kind(&lone), "IsolatedComponent");
    assert_eq!(pattern_severity(&cycle), 1_000_000);
    assert_eq!(pattern_severity(&hub), 2_400_000);
    assert_eq!(pattern_severity(&god), 1_285_714);
    assert_eq!(pattern_severity(&lone), 300_000);
    assert_eq!(pattern_description(&cycle), "Circular dependency detected: 2 nodes");
    assert_eq!(pattern_description(&hub), "High fan-in: 12 incoming edges");
    assert_eq!(pattern_description(&god), "High fan-out: 9 outgoing edges");
    assert_eq!(pattern_description(&lone), "No connections to other components");
}

#[test]
fn blank_texts() {
    assert!(is_blank(""));
    assert!(is_blank(" \t\r\n\u{a0}\u{3000}"));
    assert!(!is_blank(" x "));
    for text in ["", " ", "\u{85}", "a", "\u{200b}", "\u{2028}\u{205f}", "\u{1680}z"] {
        assert_eq!(is_blank(text), text.trim().is_empty(), "{:?}", text);
    }
}
