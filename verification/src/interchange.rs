//! The interchange format: a model, a detector configuration and the
//! detector's findings as they travel to and from other runtimes.  A payload
//! is an object with a `nodes` array (each node with `id`, `name`, `type`,
//! and optionally `technology`, `description` and `position`) and an `edges`
//! array (each edge with `from`, `to`, and optionally `label` and `weight`).
//! Here a payload is a record of plain values, each field present or absent
//! as it was in the payload.
use vstd::prelude::*;
use crate::anti_patterns::{invalid_threshold, validate_config, AntiPattern, AntiPatternConfig, PatternView};
use crate::error::{Missing, OptaError};
use crate::fixed::SCALE;
use crate::model::{opt_text, EdgeView, ModelView, NodeType, NodeView, OptaEdge, OptaModel, OptaNode};
use crate::text::{decimal, push_decimal, same_text};
use crate::viz::{CYCLE_SEVERITY, ISOLATED_SEVERITY};

verus! {

/// A node of a payload.
#[derive(Debug, Clone)]
pub struct NodeRecord {
    pub id: Option<String>,
    pub name: Option<String>,
    pub node_type: Option<String>,
    pub technology: Option<String>,
    pub description: Option<String>,
    /// The position in millionths, if the payload holds two numbers for it.
    pub position: Option<(i64, i64)>,
}

/// An edge of a payload.
#[derive(Debug, Clone)]
pub struct EdgeRecord {
    pub from: Option<String>,
    pub to: Option<String>,
    pub label: Option<String>,
    /// The weight in millionths, if the payload holds a number for it.
    pub weight: Option<i64>,
}

/// A payload.
#[derive(Debug, Clone)]
pub struct ModelRecord {
    pub nodes: Option<Vec<NodeRecord>>,
    pub edges: Option<Vec<EdgeRecord>>,
}

/// The node type that a name stands for: `Container`, `Component` and
/// `Person` for themselves, `System` for every other name and for none.
pub open spec fn type_named(name: Option<Seq<char>>) -> NodeType {
    match name {
        Some(name) => if name == "Container"@ {
            NodeType::Container
        } else if name == "Component"@ {
            NodeType::Component
        } else if name == "Person"@ {
            NodeType::Person
        } else {
            NodeType::System
        },
        None => NodeType::System,
    }
}

/// The name of a node type in a payload.
pub open spec fn name_of_type(node_type: NodeType) -> Seq<char> {
    match node_type {
        NodeType::System => "System"@,
        NodeType::Container => "Container"@,
        NodeType::Component => "Component"@,
        NodeType::Person => "Person"@,
    }
}

/// The name of a node type in a payload.
pub fn node_type_name(node_type: NodeType) -> (name: &'static str)
    ensures
        name@ == name_of_type(node_type),
{
    match node_type {
        NodeType::System => "System",
        NodeType::Container => "Container",
        NodeType::Component => "Component",
        NodeType::Person => "Person",
    }
}

/// The node type that a name of a payload stands for.
pub fn node_type_from_name(name: Option<&str>) -> (node_type: NodeType)
    ensures
        node_type == type_named(
            match name {
                Some(name) => Some(name@),
                None => None,
            },
        ),
{
    match name {
        Some(name) => {
            if same_text(name, "Container") {
                NodeType::Container
            } else if same_text(name, "Component") {
                NodeType::Component
            } else if same_text(name, "Person") {
                NodeType::Person
            } else {
                NodeType::System
            }
        },
        None => NodeType::System,
    }
}

/// The node type that a tag of the browser interface stands for: `system`,
/// `container`, `component` or `person`; no other tag stands for one.
pub open spec fn type_tagged(tag: Seq<char>) -> Option<NodeType> {
    if tag == "system"@ {
        Some(NodeType::System)
    } else if tag == "container"@ {
        Some(NodeType::Container)
    } else if tag == "component"@ {
        Some(NodeType::Component)
    } else if tag == "person"@ {
        Some(NodeType::Person)
    } else {
        None
    }
}

/// The node type that a tag of the browser interface stands for.
pub fn node_type_from_tag(tag: &str) -> (node_type: Option<NodeType>)
    ensures
        node_type == type_tagged(tag@),
{
    if same_text(tag, "system") {
        Some(NodeType::System)
    } else if same_text(tag, "container") {
        Some(NodeType::Container)
    } else if same_text(tag, "component") {
        Some(NodeType::Component)
    } else if same_text(tag, "person") {
        Some(NodeType::Person)
    } else {
        None
    }
}

/// The tag of a node type in the browser interface.
pub fn node_type_tag(node_type: NodeType) -> (tag: &'static str)
    ensures
        type_tagged(tag@) == Some(node_type),
{
    let tag: &'static str = match node_type {
        NodeType::System => "system",
        NodeType::Container => "container",
        NodeType::Component => "component",
        NodeType::Person => "person",
    };
    proof {
        reveal_strlit("system");
        reveal_strlit("container");
        reveal_strlit("component");
        reveal_strlit("person");
        assert("system"@.len() == 6 && "container"@.len() == 9 && "component"@.len() == 9 && "person"@.len() == 6);
        assert("container"@[2] != "component"@[2]);
        assert("system"@[0] != "person"@[0]);
    }
    tag
}

/// The node that a record with an identifier describes: the name is empty
/// if it is absent.
pub open spec fn node_of(record: NodeRecord) -> NodeView {
    NodeView {
        id: record.id->0@,
        name: match record.name {
            Some(name) => name@,
            None => Seq::empty(),
        },
        node_type: type_named(opt_text(record.node_type)),
        description: opt_text(record.description),
        technology: opt_text(record.technology),
        position: match record.position {
            Some(p) => Some((p.0 as int, p.1 as int)),
            None => None,
        },
    }
}

/// The edge that a record with both ends describes: the weight is one if it
/// is absent.
pub open spec fn edge_of(record: EdgeRecord) -> EdgeView {
    EdgeView {
        from: record.from->0@,
        to: record.to->0@,
        label: opt_text(record.label),
        weight: match record.weight {
            Some(weight) => weight as int,
            None => SCALE as int,
        },
    }
}

/// What an edge record lacks.
pub open spec fn edge_fault(record: EdgeRecord) -> Option<Missing> {
    if record.from is None {
        Some(Missing::EdgeFrom)
    } else if record.to is None {
        Some(Missing::EdgeTo)
    } else {
        None
    }
}

/// What the first faulty edge record lacks.
pub open spec fn first_edge_fault(edges: Seq<EdgeRecord>) -> Option<Missing>
    decreases edges.len(),
{
    if edges.len() == 0 {
        None
    } else {
        match first_edge_fault(edges.drop_last()) {
            Some(missing) => Some(missing),
            None => edge_fault(edges.last()),
        }
    }
}

/// What a payload lacks: the array of nodes, else the array of edges, else
/// the identifier of a node, else what its first faulty edge lacks.
pub open spec fn fault(record: ModelRecord) -> Option<Missing> {
    if record.nodes is None {
        Some(Missing::Nodes)
    } else if record.edges is None {
        Some(Missing::Edges)
    } else if exists|i: int| 0 <= i < record.nodes->0.len() && (#[trigger] record.nodes->0[i]).id is None {
        Some(Missing::NodeId)
    } else {
        first_edge_fault(record.edges->0@)
    }
}

/// The model that a payload without fault describes: its nodes and edges in
/// order, and no matrix.
pub open spec fn model_of(record: ModelRecord) -> ModelView {
    ModelView {
        nodes: Seq::new(record.nodes->0.len() as nat, |i: int| node_of(record.nodes->0[i])),
        edges: Seq::new(record.edges->0.len() as nat, |i: int| edge_of(record.edges->0[i])),
        matrix: None,
    }
}

fn node_from(record: &NodeRecord) -> (node: OptaNode)
    requires
        record.id is Some,
    ensures
        node@ == node_of(*record),
{
    let id: String = match &record.id {
        Some(id) => id.clone(),
        None => String::new(),
    };
    let name: String = match &record.name {
        Some(name) => name.clone(),
        None => String::new(),
    };
    let node_type = match &record.node_type {
        Some(name) => node_type_from_name(Some(name.as_str())),
        None => node_type_from_name(None),
    };
    let mut node = OptaNode::new(id, name, node_type);
    match &record.technology {
        Some(technology) => {
            node = node.with_technology(technology.clone());
        },
        None => {},
    }
    match &record.description {
        Some(description) => {
            node = node.with_description(description.clone());
        },
        None => {},
    }
    match record.position {
        Some((x, y)) => {
            node.set_position(x, y);
        },
        None => {},
    }
    node
}

fn edge_from(record: &EdgeRecord) -> (edge: OptaEdge)
    requires
        record.from is Some,
        record.to is Some,
    ensures
        edge@ == edge_of(*record),
{
    let from: String = match &record.from {
        Some(from) => from.clone(),
        None => String::new(),
    };
    let to: String = match &record.to {
        Some(to) => to.clone(),
        None => String::new(),
    };
    let mut edge = OptaEdge::new(from, to);
    match &record.label {
        Some(label) => {
            edge = edge.with_label(label.clone());
        },
        None => {},
    }
    match record.weight {
        Some(weight) => {
            edge = edge.with_weight(weight);
        },
        None => {},
    }
    edge
}

/// The model that a payload describes.  Fails if the payload lacks an array
/// or a node's identifier or an end of an edge, and says what it lacks.
pub fn json_to_model(record: &ModelRecord) -> (r: Result<OptaModel, OptaError>)
    ensures
        match fault(*record) {
            Some(missing) => r == Err::<OptaModel, OptaError>(
                OptaError::MalformedInterchange(missing),
            ),
            None => r is Ok && r->Ok_0@ == model_of(*record),
        },
{
    let nodes = match &record.nodes {
        Some(nodes) => nodes,
        None => {
            return Err(OptaError::MalformedInterchange(Missing::Nodes));
        },
    };
    let edges = match &record.edges {
        Some(edges) => edges,
        None => {
            return Err(OptaError::MalformedInterchange(Missing::Edges));
        },
    };
    let mut model = OptaModel::new();
    let ghost wanted = model_of(*record);
    let mut i: usize = 0;
    assert(wanted.nodes.take(0) =~= Seq::<NodeView>::empty());
    while i < nodes.len()
        invariant
            i <= nodes.len(),
            record.nodes == Some(*nodes),
            record.edges == Some(*edges),
            wanted == model_of(*record),
            forall|a: int| 0 <= a < i ==> (#[trigger] nodes[a]).id is Some,
            model@ == (ModelView {
                nodes: wanted.nodes.take(i as int),
                edges: Seq::empty(),
                matrix: None,
            }),
        decreases nodes.len() - i,
    {
        if nodes[i].id.is_none() {
            return Err(OptaError::MalformedInterchange(Missing::NodeId));
        }
        let node = node_from(&nodes[i]);
        model.add_node(node);
        assert(wanted.nodes.take(i + 1) =~= wanted.nodes.take(i as int).push(wanted.nodes[i as int]));
        i = i + 1;
    }
    assert(wanted.nodes.take(i as int) =~= wanted.nodes);
    let ghost records = edges@;
    let mut k: usize = 0;
    assert(records.take(0) =~= Seq::<EdgeRecord>::empty());
    assert(wanted.edges.take(0) =~= Seq::<EdgeView>::empty());
    while k < edges.len()
        invariant
            k <= edges.len(),
            record.nodes == Some(*nodes),
            record.edges == Some(*edges),
            records == edges@,
            wanted == model_of(*record),
            forall|a: int| 0 <= a < nodes.len() ==> (#[trigger] nodes[a]).id is Some,
            first_edge_fault(records.take(k as int)) is None,
            model@ == (ModelView {
                nodes: wanted.nodes,
                edges: wanted.edges.take(k as int),
                matrix: None,
            }),
        decreases edges.len() - k,
    {
        assert(records.take(k + 1).drop_last() =~= records.take(k as int));
        if edges[k].from.is_none() {
            proof {
                lemma_fault_extends(records, k + 1);
            }
            return Err(OptaError::MalformedInterchange(Missing::EdgeFrom));
        }
        if edges[k].to.is_none() {
            proof {
                lemma_fault_extends(records, k + 1);
            }
            return Err(OptaError::MalformedInterchange(Missing::EdgeTo));
        }
        let edge = edge_from(&edges[k]);
        model.add_edge(edge);
        assert(wanted.edges.take(k + 1) =~= wanted.edges.take(k as int).push(wanted.edges[k as int]));
        k = k + 1;
    }
    assert(records.take(k as int) =~= records);
    assert(wanted.edges.take(k as int) =~= wanted.edges);
    Ok(model)
}

/// A fault within the first `k` edge records is the fault of all of them.
pub proof fn lemma_fault_extends(edges: Seq<EdgeRecord>, k: int)
    requires
        0 <= k <= edges.len(),
        first_edge_fault(edges.take(k)) is Some,
    ensures
        first_edge_fault(edges) == first_edge_fault(edges.take(k)),
    decreases edges.len() - k,
{
    if k < edges.len() {
        assert(edges.take(k + 1).drop_last() =~= edges.take(k));
        lemma_fault_extends(edges, k + 1);
    } else {
        assert(edges.take(k) =~= edges);
    }
}

/// The configuration that a payload with the given thresholds stands for: an
/// absent threshold takes its default, and isolated nodes are looked for.
pub open spec fn config_of(bottleneck: Option<usize>, over_coupling: Option<usize>) -> AntiPatternConfig {
    AntiPatternConfig {
        bottleneck_threshold: match bottleneck {
            Some(threshold) => threshold,
            None => 5,
        },
        over_coupling_threshold: match over_coupling {
            Some(threshold) => threshold,
            None => 7,
        },
        detect_isolated: true,
    }
}

/// The configuration that a payload with the given thresholds stands for.
/// Fails if a threshold is below one, and says which.
pub fn config_from(bottleneck: Option<usize>, over_coupling: Option<usize>) -> (r: Result<
    AntiPatternConfig,
    OptaError,
>)
    ensures
        r == match invalid_threshold(config_of(bottleneck, over_coupling)) {
            Some(threshold) => Err::<AntiPatternConfig, OptaError>(
                OptaError::InvalidConfiguration(threshold),
            ),
            None => Ok::<AntiPatternConfig, OptaError>(config_of(bottleneck, over_coupling)),
        },
{
    let defaults = AntiPatternConfig::default();
    let config = AntiPatternConfig {
        bottleneck_threshold: match bottleneck {
            Some(threshold) => threshold,
            None => defaults.bottleneck_threshold,
        },
        over_coupling_threshold: match over_coupling {
            Some(threshold) => threshold,
            None => defaults.over_coupling_threshold,
        },
        detect_isolated: true,
    };
    match validate_config(&config) {
        Ok(_) => Ok(config),
        Err(error) => Err(error),
    }
}

/// The name of a pattern's kind in a payload.
pub open spec fn kind_name(pattern: PatternView) -> Seq<char> {
    match pattern {
        PatternView::Cycle { .. } => "Cycle"@,
        PatternView::Bottleneck { .. } => "Bottleneck"@,
        PatternView::IsolatedComponent { .. } => "IsolatedComponent"@,
        PatternView::OverCoupling { .. } => "OverCoupling"@,
    }
}

/// The name of a pattern's kind in a payload.
pub fn pattern_kind(pattern: &AntiPattern) -> (name: &'static str)
    ensures
        name@ == kind_name(pattern@),
{
    match pattern {
        AntiPattern::Cycle { .. } => "Cycle",
        AntiPattern::Bottleneck { .. } => "Bottleneck",
        AntiPattern::IsolatedComponent { .. } => "IsolatedComponent",
        AntiPattern::OverCoupling { .. } => "OverCoupling",
    }
}

/// The severity of a pattern in a payload: one for a cycle, three tenths for
/// an isolated node, else the pattern's own.
pub open spec fn reported_severity(pattern: PatternView) -> int {
    match pattern {
        PatternView::Cycle { .. } => CYCLE_SEVERITY as int,
        PatternView::Bottleneck { severity, .. } => severity,
        PatternView::IsolatedComponent { .. } => ISOLATED_SEVERITY as int,
        PatternView::OverCoupling { severity, .. } => severity,
    }
}

/// The severity of a pattern in a payload.
pub fn pattern_severity(pattern: &AntiPattern) -> (severity: i64)
    ensures
        severity == reported_severity(pattern@),
{
    match pattern {
        AntiPattern::Cycle { .. } => CYCLE_SEVERITY,
        AntiPattern::Bottleneck { severity, .. } => *severity,
        AntiPattern::IsolatedComponent { .. } => ISOLATED_SEVERITY,
        AntiPattern::OverCoupling { severity, .. } => *severity,
    }
}

/// The description of a pattern in a payload.
pub open spec fn description_of(pattern: PatternView) -> Seq<char> {
    match pattern {
        PatternView::Cycle { nodes } => "Circular dependency detected: "@ + decimal(nodes.len())
            + " nodes"@,
        PatternView::Bottleneck { in_degree, .. } => "High fan-in: "@ + decimal(in_degree)
            + " incoming edges"@,
        PatternView::IsolatedComponent { .. } => "No connections to other components"@,
        PatternView::OverCoupling { out_degree, .. } => "High fan-out: "@ + decimal(out_degree)
            + " outgoing edges"@,
    }
}

/// The description of a pattern in a payload.
pub fn pattern_description(pattern: &AntiPattern) -> (text: String)
    ensures
        text@ == description_of(pattern@),
{
    match pattern {
        AntiPattern::Cycle { nodes } => {
            let mut text = String::from_str("Circular dependency detected: ");
            push_decimal(&mut text, nodes.len() as u64);
            text.append(" nodes");
            text
        },
        AntiPattern::Bottleneck { in_degree, .. } => {
            let mut text = String::from_str("High fan-in: ");
            push_decimal(&mut text, *in_degree as u64);
            text.append(" incoming edges");
            text
        },
        AntiPattern::IsolatedComponent { .. } => String::from_str(
            "No connections to other components",
        ),
        AntiPattern::OverCoupling { out_degree, .. } => {
            let mut text = String::from_str("High fan-out: ");
            push_decimal(&mut text, *out_degree as u64);
            text.append(" outgoing edges");
            text
        },
    }
}

} // verus!
