//! Export of a model as a graph-description document: a directed graph
//! coloured by the severity of the anti-patterns found in it, or an
//! undirected one that pins each node to its position.
use vstd::prelude::*;
use crate::anti_patterns::{detect_anti_patterns, index_in, pattern_views, patterns_of, texts, AntiPattern, AntiPatternConfig, PatternView};
use crate::fixed::{fx_add, fx_max, fx_mul, fx_sub, add_spec, mul_spec, sub_spec, SCALE};
use crate::model::{lemma_first_index_of, EdgeView, ModelView, NodeType, NodeView, OptaEdge, OptaModel, OptaNode};
use crate::error::OptaError;
use crate::text::{debug_string, debug_text, decimal, push_decimal, push_shortest, push_two_places, shortest, two_places};

verus! {

/// The severity that a cycle gives each of its nodes: one.
pub const CYCLE_SEVERITY: i64 = 1_000_000;

/// The severity that isolation gives a node: three tenths.
pub const ISOLATED_SEVERITY: i64 = 300_000;

/// The shape in which nodes of a type are drawn.
pub open spec fn shape_of(node_type: NodeType) -> Seq<char> {
    match node_type {
        NodeType::System => "box3d"@,
        NodeType::Container => "component"@,
        NodeType::Component => "box"@,
        NodeType::Person => "ellipse"@,
    }
}

/// The shape in which nodes of a type are drawn.
pub fn node_type_to_shape(node_type: &NodeType) -> (shape: &'static str)
    ensures
        shape@ == shape_of(*node_type),
{
    match node_type {
        NodeType::System => "box3d",
        NodeType::Container => "component",
        NodeType::Component => "box",
        NodeType::Person => "ellipse",
    }
}

/// The fill colour for a severity: red from one, orange from seven tenths,
/// yellow from three tenths, gray above zero, green at zero or below.
pub open spec fn color_of(severity: int) -> Seq<char> {
    if severity >= SCALE {
        "#ff4444"@
    } else if severity >= 700_000 {
        "#ff8844"@
    } else if severity >= 300_000 {
        "#ffcc44"@
    } else if severity > 0 {
        "#cccccc"@
    } else {
        "#aaddaa"@
    }
}

/// The fill colour for a severity.
pub fn severity_to_color(severity: i64) -> (color: String)
    ensures
        color@ == color_of(severity as int),
{
    if severity >= SCALE {
        String::from_str("#ff4444")
    } else if severity >= 700_000 {
        String::from_str("#ff8844")
    } else if severity >= 300_000 {
        String::from_str("#ffcc44")
    } else if severity > 0 {
        String::from_str("#cccccc")
    } else {
        String::from_str("#aaddaa")
    }
}

/// The severity that one pattern gives the node `id`: one for a node of a
/// cycle, the pattern's own severity for a bottleneck or an over-coupled
/// node, three tenths for an isolated one, zero for a node that the pattern
/// does not touch.
pub open spec fn touch(pattern: PatternView, id: Seq<char>) -> int {
    match pattern {
        PatternView::Cycle { nodes } => if nodes.contains(id) {
            CYCLE_SEVERITY as int
        } else {
            0
        },
        PatternView::Bottleneck { node_id, severity, .. } => if node_id == id {
            severity
        } else {
            0
        },
        PatternView::IsolatedComponent { node_id } => if node_id == id {
            ISOLATED_SEVERITY as int
        } else {
            0
        },
        PatternView::OverCoupling { node_id, severity, .. } => if node_id == id {
            severity
        } else {
            0
        },
    }
}

/// The severity of a node: the largest that a pattern gives it, zero if none
/// touches it.
pub open spec fn node_severity(patterns: Seq<PatternView>, id: Seq<char>) -> int
    decreases patterns.len(),
{
    if patterns.len() == 0 {
        0
    } else {
        let before = node_severity(patterns.drop_last(), id);
        let here = touch(patterns.last(), id);
        if before >= here {
            before
        } else {
            here
        }
    }
}

/// Whether `id` is a node of a reported cycle.
pub open spec fn in_cycle(patterns: Seq<PatternView>, id: Seq<char>) -> bool
    decreases patterns.len(),
{
    if patterns.len() == 0 {
        false
    } else {
        in_cycle(patterns.drop_last(), id) || match patterns.last() {
            PatternView::Cycle { nodes } => nodes.contains(id),
            _ => false,
        }
    }
}

fn has_text(list: &Vec<String>, id: &String) -> (r: bool)
    ensures
        r == texts(list@).contains(id@),
{
    proof {
        lemma_first_index_of(texts(list@), id@);
    }
    index_in(list, id).is_some()
}

fn severity_from(pattern: &AntiPattern, id: &String) -> (s: i64)
    ensures
        s == touch(pattern@, id@),
{
    match pattern {
        AntiPattern::Cycle { nodes } => if has_text(nodes, id) {
            CYCLE_SEVERITY
        } else {
            0
        },
        AntiPattern::Bottleneck { node_id, in_degree, severity } => if *node_id == *id {
            *severity
        } else {
            0
        },
        AntiPattern::IsolatedComponent { node_id } => if *node_id == *id {
            ISOLATED_SEVERITY
        } else {
            0
        },
        AntiPattern::OverCoupling { node_id, out_degree, severity } => if *node_id == *id {
            *severity
        } else {
            0
        },
    }
}

/// The severity of the node `id` under the given patterns.
pub fn build_severity(patterns: &Vec<AntiPattern>, id: &String) -> (s: i64)
    ensures
        s == node_severity(pattern_views(patterns@), id@),
{
    let ghost views = pattern_views(patterns@);
    let mut s: i64 = 0;
    let mut i: usize = 0;
    assert(views.take(0) =~= Seq::<PatternView>::empty());
    while i < patterns.len()
        invariant
            i <= patterns.len(),
            views == pattern_views(patterns@),
            s == node_severity(views.take(i as int), id@),
        decreases patterns.len() - i,
    {
        assert(views.take(i + 1).drop_last() =~= views.take(i as int));
        s = fx_max(s, severity_from(&patterns[i], id));
        i = i + 1;
    }
    assert(views.take(i as int) =~= views);
    s
}

/// Whether `id` is a node of a reported cycle.
pub fn is_cycle_node(patterns: &Vec<AntiPattern>, id: &String) -> (r: bool)
    ensures
        r == in_cycle(pattern_views(patterns@), id@),
{
    let ghost views = pattern_views(patterns@);
    let mut found: bool = false;
    let mut i: usize = 0;
    assert(views.take(0) =~= Seq::<PatternView>::empty());
    while i < patterns.len()
        invariant
            i <= patterns.len(),
            views == pattern_views(patterns@),
            found == in_cycle(views.take(i as int), id@),
        decreases patterns.len() - i,
    {
        assert(views.take(i + 1).drop_last() =~= views.take(i as int));
        match &patterns[i] {
            AntiPattern::Cycle { nodes } => {
                if has_text(nodes, id) {
                    found = true;
                }
            },
            _ => {},
        }
        i = i + 1;
    }
    assert(views.take(i as int) =~= views);
    found
}

/// The text of an optional label, empty if there is none.
pub open spec fn label_text(label: Option<Seq<char>>) -> Seq<char> {
    match label {
        Some(text) => text,
        None => Seq::empty(),
    }
}

/// The declaration of a node up to its style: label, fill colour, shape, and
/// a style that is dashed for a severity between zero and one half.
pub open spec fn node_declaration(node: NodeView, severity: int) -> Seq<char> {
    "  \""@ + node.id + "\" [label=\""@ + node.name + "\", fillcolor=\""@ + color_of(severity)
        + "\", shape="@ + shape_of(node.node_type) + ", style=\""@ + (if 0 < severity < 500_000 {
        "filled,dashed"@
    } else {
        "filled"@
    }) + "\""@
}

/// The tooltip of a node: its severity, if that is positive.
pub open spec fn tooltip(severity: int) -> Seq<char> {
    if severity > 0 {
        ", tooltip=\"Severity: "@ + two_places(severity) + "\""@
    } else {
        Seq::empty()
    }
}

/// The comment under a node: its position, if it has one, and its severity;
/// nothing for a node without position and with a severity of zero.
pub open spec fn node_comment(node: NodeView, severity: int) -> Seq<char> {
    match node.position {
        Some((x, y)) => "  // Position: ("@ + two_places(x) + ", "@ + two_places(y)
            + "), Severity: "@ + two_places(severity) + "\n"@,
        None => if severity > 0 {
            "  // Severity: "@ + two_places(severity) + "\n"@
        } else {
            Seq::empty()
        },
    }
}

/// The lines of a node in the coloured document: its declaration, closed
/// after the tooltip, and its comment.
pub open spec fn node_lines(node: NodeView, severity: int) -> Seq<char> {
    node_declaration(node, severity) + tooltip(severity) + "];\n"@ + node_comment(node, severity)
}

/// The lines of all nodes, in order.
pub open spec fn all_node_lines(nodes: Seq<NodeView>, patterns: Seq<PatternView>) -> Seq<char>
    decreases nodes.len(),
{
    if nodes.len() == 0 {
        Seq::empty()
    } else {
        all_node_lines(nodes.drop_last(), patterns) + node_lines(
            nodes.last(),
            node_severity(patterns, nodes.last().id),
        )
    }
}

/// The stroke width of an edge outside a cycle: one for the weight one, and
/// half of what the weight is above or below one more or less.
pub open spec fn stroke_width(weight: int) -> int {
    add_spec(SCALE as int, mul_spec(sub_spec(weight, SCALE as int), 500_000))
}

/// The line of an edge in the coloured document.  An edge between two nodes
/// of the reported cycle is drawn red and three wide.
pub open spec fn edge_line(edge: EdgeView, patterns: Seq<PatternView>) -> Seq<char> {
    let cyclic = in_cycle(patterns, edge.from) && in_cycle(patterns, edge.to);
    "  \""@ + edge.from + "\" -> \""@ + edge.to + "\" [label=\""@ + label_text(edge.label)
        + "\", penwidth="@ + (if cyclic {
        shortest(3_000_000) + ", color=\"#ff0000\""@
    } else {
        shortest(stroke_width(edge.weight))
    }) + "];\n"@
}

/// The lines of all edges, in order.
pub open spec fn all_edge_lines(edges: Seq<EdgeView>, patterns: Seq<PatternView>) -> Seq<char>
    decreases edges.len(),
{
    if edges.len() == 0 {
        Seq::empty()
    } else {
        all_edge_lines(edges.drop_last(), patterns) + edge_line(edges.last(), patterns)
    }
}

/// Identifiers as a list: in square brackets, separated by a comma and a
/// space, each as `{:?}` writes a string.
pub open spec fn debug_items(ids: Seq<Seq<char>>) -> Seq<char>
    decreases ids.len(),
{
    if ids.len() == 0 {
        Seq::empty()
    } else if ids.len() == 1 {
        debug_text(ids[0])
    } else {
        debug_items(ids.drop_last()) + ", "@ + debug_text(ids.last())
    }
}

/// The comment that reports one pattern.
pub open spec fn pattern_line(pattern: PatternView) -> Seq<char> {
    match pattern {
        PatternView::Cycle { nodes } => "  // Cycle: ["@ + debug_items(nodes) + "]\n"@,
        PatternView::Bottleneck { node_id, in_degree, severity } => "  // Bottleneck: "@ + node_id
            + " (in_degree="@ + decimal(in_degree) + ", severity="@ + two_places(severity) + ")\n"@,
        PatternView::IsolatedComponent { node_id } => "  // Isolated: "@ + node_id + "\n"@,
        PatternView::OverCoupling { node_id, out_degree, severity } => "  // Over-coupled: "@
            + node_id + " (out_degree="@ + decimal(out_degree) + ", severity="@ + two_places(
            severity,
        ) + ")\n"@,
    }
}

/// The comments that report all patterns, in order.
pub open spec fn all_pattern_lines(patterns: Seq<PatternView>) -> Seq<char>
    decreases patterns.len(),
{
    if patterns.len() == 0 {
        Seq::empty()
    } else {
        all_pattern_lines(patterns.drop_last()) + pattern_line(patterns.last())
    }
}

/// The coloured document of a model under the given patterns: a header, the
/// nodes, an empty line, the edges, the patterns under a heading if there are
/// any, and the closing brace.
pub open spec fn dot_document(model: ModelView, patterns: Seq<PatternView>) -> Seq<char> {
    "digraph Architecture {\n  rankdir=TB;\n  splines=curved;\n  node [style=filled, fontsize=10, fontcolor=\"#333333\"];\n  edge [penwidth=1.5];\n\n"@
        + all_node_lines(model.nodes, patterns) + "\n"@ + all_edge_lines(model.edges, patterns) + (
    if patterns.len() > 0 {
        "\n  // Anti-patterns detected:\n"@ + all_pattern_lines(patterns)
    } else {
        Seq::empty()
    }) + "}\n"@
}

fn declaration_text(node: &OptaNode, severity: i64) -> (line: String)
    ensures
        line@ == node_declaration(node@, severity as int),
{
    let mut line = String::from_str("  \"");
    line.append(node.id.as_str());
    line.append("\" [label=\"");
    line.append(node.name.as_str());
    line.append("\", fillcolor=\"");
    let color = severity_to_color(severity);
    line.append(color.as_str());
    line.append("\", shape=");
    line.append(node_type_to_shape(&node.node_type));
    line.append(", style=\"");
    if severity > 0 && severity < 500_000 {
        line.append("filled,dashed");
    } else {
        line.append("filled");
    }
    line.append("\"");
    line
}

fn tooltip_text(severity: i64) -> (text: String)
    ensures
        text@ == tooltip(severity as int),
{
    if severity > 0 {
        let mut text = String::from_str(", tooltip=\"Severity: ");
        push_two_places(&mut text, severity);
        text.append("\"");
        text
    } else {
        String::new()
    }
}

fn comment_text(node: &OptaNode, severity: i64) -> (text: String)
    ensures
        text@ == node_comment(node@, severity as int),
{
    match node.position {
        Some((x, y)) => {
            let mut text = String::from_str("  // Position: (");
            push_two_places(&mut text, x);
            text.append(", ");
            push_two_places(&mut text, y);
            text.append("), Severity: ");
            push_two_places(&mut text, severity);
            text.append("\n");
            text
        },
        None => {
            if severity > 0 {
                let mut text = String::from_str("  // Severity: ");
                push_two_places(&mut text, severity);
                text.append("\n");
                text
            } else {
                String::new()
            }
        },
    }
}

fn push_node_lines(out: &mut String, node: &OptaNode, severity: i64)
    ensures
        final(out)@ == old(out)@ + node_lines(node@, severity as int),
{
    let mut lines = declaration_text(node, severity);
    let tip = tooltip_text(severity);
    lines.append(tip.as_str());
    lines.append("];\n");
    let comment = comment_text(node, severity);
    lines.append(comment.as_str());
    out.append(lines.as_str());
}

fn push_edge_line(out: &mut String, edge: &OptaEdge, patterns: &Vec<AntiPattern>)
    ensures
        final(out)@ == old(out)@ + edge_line(edge@, pattern_views(patterns@)),
{
    out.append("  \"");
    out.append(edge.from.as_str());
    out.append("\" -> \"");
    out.append(edge.to.as_str());
    out.append("\" [label=\"");
    match &edge.label {
        Some(label) => {
            out.append(label.as_str());
        },
        None => {},
    }
    out.append("\", penwidth=");
    let ghost head = out@;
    let cyclic: bool = is_cycle_node(patterns, &edge.from) && is_cycle_node(patterns, &edge.to);
    if cyclic {
        push_shortest(out, 3_000_000);
        out.append(", color=\"#ff0000\"");
    } else {
        let width: i64 = fx_add(SCALE, fx_mul(fx_sub(edge.weight, SCALE), 500_000));
        push_shortest(out, width);
    }
    out.append("];\n");
    proof {
        let e = edge@;
        assert(head =~= old(out)@ + ("  \""@ + e.from + "\" -> \""@ + e.to + "\" [label=\""@
            + label_text(e.label) + "\", penwidth="@));
        assert(out@ =~= old(out)@ + edge_line(e, pattern_views(patterns@)));
    }
}

fn push_debug_items(out: &mut String, ids: &Vec<String>)
    ensures
        final(out)@ == old(out)@ + debug_items(texts(ids@)),
{
    let ghost all = texts(ids@);
    let mut i: usize = 0;
    assert(all.take(0) =~= Seq::<Seq<char>>::empty());
    while i < ids.len()
        invariant
            i <= ids.len(),
            all == texts(ids@),
            out@ == old(out)@ + debug_items(all.take(i as int)),
        decreases ids.len() - i,
    {
        let ghost prior = out@;
        assert(all.take(i + 1).drop_last() =~= all.take(i as int));
        if i > 0 {
            out.append(", ");
        }
        let item = debug_string(&ids[i]);
        out.append(item.as_str());
        proof {
            if i == 0 {
                assert(debug_items(all.take(0)) =~= Seq::<char>::empty());
                assert(all.take(1)[0] == ids[0]@);
            }
            assert(out@ =~= old(out)@ + debug_items(all.take(i + 1)));
        }
        i = i + 1;
    }
    assert(all.take(i as int) =~= all);
}

fn push_pattern_line(out: &mut String, pattern: &AntiPattern)
    ensures
        final(out)@ == old(out)@ + pattern_line(pattern@),
{
    match pattern {
        AntiPattern::Cycle { nodes } => {
            out.append("  // Cycle: [");
            push_debug_items(out, nodes);
            out.append("]\n");
        },
        AntiPattern::Bottleneck { node_id, in_degree, severity } => {
            out.append("  // Bottleneck: ");
            out.append(node_id.as_str());
            out.append(" (in_degree=");
            push_decimal(out, *in_degree as u64);
            out.append(", severity=");
            push_two_places(out, *severity);
            out.append(")\n");
        },
        AntiPattern::IsolatedComponent { node_id } => {
            out.append("  // Isolated: ");
            out.append(node_id.as_str());
            out.append("\n");
        },
        AntiPattern::OverCoupling { node_id, out_degree, severity } => {
            out.append("  // Over-coupled: ");
            out.append(node_id.as_str());
            out.append(" (out_degree=");
            push_decimal(out, *out_degree as u64);
            out.append(", severity=");
            push_two_places(out, *severity);
            out.append(")\n");
        },
    }
    assert(out@ =~= old(out)@ + pattern_line(pattern@));
}

/// The coloured document of the model under the given patterns.
pub fn render_dot(model: &OptaModel, patterns: &Vec<AntiPattern>) -> (dot: String)
    ensures
        dot@ == dot_document(model@, pattern_views(patterns@)),
{
    let ghost views = pattern_views(patterns@);
    let ghost nodes = model@.nodes;
    let ghost edges = model@.edges;
    let mut dot = String::from_str(
        "digraph Architecture {\n  rankdir=TB;\n  splines=curved;\n  node [style=filled, fontsize=10, fontcolor=\"#333333\"];\n  edge [penwidth=1.5];\n\n",
    );
    let ghost header = dot@;
    let mut i: usize = 0;
    assert(nodes.take(0) =~= Seq::<NodeView>::empty());
    assert(dot@ =~= header + all_node_lines(nodes.take(0), views));
    while i < model.nodes.len()
        invariant
            i <= model.nodes.len(),
            nodes == model@.nodes,
            views == pattern_views(patterns@),
            dot@ == header + all_node_lines(nodes.take(i as int), views),
        decreases model.nodes.len() - i,
    {
        assert(nodes.take(i + 1).drop_last() =~= nodes.take(i as int));
        let severity: i64 = build_severity(patterns, &model.nodes[i].id);
        push_node_lines(&mut dot, &model.nodes[i], severity);
        assert(dot@ =~= header + all_node_lines(nodes.take(i + 1), views));
        i = i + 1;
    }
    assert(nodes.take(i as int) =~= nodes);
    dot.append("\n");
    let ghost upper = dot@;
    let mut k: usize = 0;
    assert(edges.take(0) =~= Seq::<EdgeView>::empty());
    assert(dot@ =~= upper + all_edge_lines(edges.take(0), views));
    while k < model.edges.len()
        invariant
            k <= model.edges.len(),
            edges == model@.edges,
            views == pattern_views(patterns@),
            dot@ == upper + all_edge_lines(edges.take(k as int), views),
        decreases model.edges.len() - k,
    {
        assert(edges.take(k + 1).drop_last() =~= edges.take(k as int));
        push_edge_line(&mut dot, &model.edges[k], patterns);
        assert(dot@ =~= upper + all_edge_lines(edges.take(k + 1), views));
        k = k + 1;
    }
    assert(edges.take(k as int) =~= edges);
    let ghost middle = dot@;
    if patterns.len() > 0 {
        dot.append("\n  // Anti-patterns detected:\n");
        let ghost heading = dot@;
        let mut p: usize = 0;
        assert(views.take(0) =~= Seq::<PatternView>::empty());
        assert(dot@ =~= heading + all_pattern_lines(views.take(0)));
        while p < patterns.len()
            invariant
                p <= patterns.len(),
                views == pattern_views(patterns@),
                dot@ == heading + all_pattern_lines(views.take(p as int)),
            decreases patterns.len() - p,
        {
            assert(views.take(p + 1).drop_last() =~= views.take(p as int));
            push_pattern_line(&mut dot, &patterns[p]);
            assert(dot@ =~= heading + all_pattern_lines(views.take(p + 1)));
            p = p + 1;
        }
        assert(views.take(p as int) =~= views);
        assert(dot@ =~= middle + ("\n  // Anti-patterns detected:\n"@ + all_pattern_lines(views)));
    } else {
        assert(dot@ =~= middle + Seq::<char>::empty());
    }
    dot.append("}\n");
    assert(dot@ =~= dot_document(model@, views));
    dot
}

/// The patterns that the coloured document of a model shows: those of the
/// model under the configuration, none without a configuration.
pub open spec fn shown_patterns(model: ModelView, config: Option<&AntiPatternConfig>) -> Seq<
    PatternView,
> {
    match config {
        Some(config) => patterns_of(model, *config),
        None => Seq::empty(),
    }
}

/// The model as a directed graph, coloured by the severity of the
/// anti-patterns that detection under `config` finds; without a
/// configuration nothing is looked for.  The export never fails.
pub fn to_dot(model: &OptaModel, config: Option<&AntiPatternConfig>) -> (r: Result<String, OptaError>)
    ensures
        r is Ok,
        r->Ok_0@ == dot_document(model@, shown_patterns(model@, config)),
{
    let patterns: Vec<AntiPattern> = match config {
        Some(config) => match detect_anti_patterns(model, config) {
            Ok(found) => found,
            Err(_) => Vec::new(),
        },
        None => Vec::new(),
    };
    assert(pattern_views(patterns@) =~= shown_patterns(model@, config));
    Ok(render_dot(model, &patterns))
}

/// The line of a node in the positioned document.
pub open spec fn placed_node_line(node: NodeView) -> Seq<char> {
    "  \""@ + node.id + "\" [label=\""@ + node.name + "\", shape="@ + shape_of(node.node_type) + (
    match node.position {
        Some((x, y)) => ", pos=\""@ + two_places(x) + ","@ + two_places(y) + "!\"];\n"@,
        None => "];\n"@,
    })
}

/// The lines of all nodes in the positioned document, in order.
pub open spec fn placed_node_lines(nodes: Seq<NodeView>) -> Seq<char>
    decreases nodes.len(),
{
    if nodes.len() == 0 {
        Seq::empty()
    } else {
        placed_node_lines(nodes.drop_last()) + placed_node_line(nodes.last())
    }
}

/// The line of an edge in the positioned document.
pub open spec fn plain_edge_line(edge: EdgeView) -> Seq<char> {
    "  \""@ + edge.from + "\" -- \""@ + edge.to + "\" [label=\""@ + label_text(edge.label)
        + "\"];\n"@
}

/// The lines of all edges in the positioned document, in order.
pub open spec fn plain_edge_lines(edges: Seq<EdgeView>) -> Seq<char>
    decreases edges.len(),
{
    if edges.len() == 0 {
        Seq::empty()
    } else {
        plain_edge_lines(edges.drop_last()) + plain_edge_line(edges.last())
    }
}

/// The positioned document of a model: an undirected graph whose nodes are
/// pinned to their positions, as far as they have one.
pub open spec fn positioned_document(model: ModelView) -> Seq<char> {
    "graph Architecture {\n  layout=neato;\n  node [style=filled, fixedsize=true, width=1.5, height=0.8, fontsize=10, fontcolor=\"#333333\"];\n\n"@
        + placed_node_lines(model.nodes) + "\n"@ + plain_edge_lines(model.edges) + "}\n"@
}

fn push_placed_node(out: &mut String, node: &OptaNode)
    ensures
        final(out)@ == old(out)@ + placed_node_line(node@),
{
    out.append("  \"");
    out.append(node.id.as_str());
    out.append("\" [label=\"");
    out.append(node.name.as_str());
    out.append("\", shape=");
    out.append(node_type_to_shape(&node.node_type));
    match node.position {
        Some((x, y)) => {
            out.append(", pos=\"");
            push_two_places(out, x);
            out.append(",");
            push_two_places(out, y);
            out.append("!\"];\n");
        },
        None => {
            out.append("];\n");
        },
    }
    assert(out@ =~= old(out)@ + placed_node_line(node@));
}

fn push_plain_edge(out: &mut String, edge: &OptaEdge)
    ensures
        final(out)@ == old(out)@ + plain_edge_line(edge@),
{
    out.append("  \"");
    out.append(edge.from.as_str());
    out.append("\" -- \"");
    out.append(edge.to.as_str());
    out.append("\" [label=\"");
    match &edge.label {
        Some(label) => {
            out.append(label.as_str());
        },
        None => {},
    }
    out.append("\"];\n");
    assert(out@ =~= old(out)@ + plain_edge_line(edge@));
}

/// The model as an undirected graph with fixed positions and without
/// colours.  The export never fails.
pub fn to_dot_with_positions(model: &OptaModel) -> (r: Result<String, OptaError>)
    ensures
        r is Ok,
        r->Ok_0@ == positioned_document(model@),
{
    let ghost nodes = model@.nodes;
    let ghost edges = model@.edges;
    let mut dot = String::from_str(
        "graph Architecture {\n  layout=neato;\n  node [style=filled, fixedsize=true, width=1.5, height=0.8, fontsize=10, fontcolor=\"#333333\"];\n\n",
    );
    let ghost header = dot@;
    let mut i: usize = 0;
    assert(nodes.take(0) =~= Seq::<NodeView>::empty());
    assert(dot@ =~= header + placed_node_lines(nodes.take(0)));
    while i < model.nodes.len()
        invariant
            i <= model.nodes.len(),
            nodes == model@.nodes,
            dot@ == header + placed_node_lines(nodes.take(i as int)),
        decreases model.nodes.len() - i,
    {
        assert(nodes.take(i + 1).drop_last() =~= nodes.take(i as int));
        push_placed_node(&mut dot, &model.nodes[i]);
        assert(dot@ =~= header + placed_node_lines(nodes.take(i + 1)));
        i = i + 1;
    }
    assert(nodes.take(i as int) =~= nodes);
    dot.append("\n");
    let ghost upper = dot@;
    let mut k: usize = 0;
    assert(edges.take(0) =~= Seq::<EdgeView>::empty());
    assert(dot@ =~= upper + plain_edge_lines(edges.take(0)));
    while k < model.edges.len()
        invariant
            k <= model.edges.len(),
            edges == model@.edges,
            dot@ == upper + plain_edge_lines(edges.take(k as int)),
        decreases model.edges.len() - k,
    {
        assert(edges.take(k + 1).drop_last() =~= edges.take(k as int));
        push_plain_edge(&mut dot, &model.edges[k]);
        assert(dot@ =~= upper + plain_edge_lines(edges.take(k + 1)));
        k = k + 1;
    }
    assert(edges.take(k as int) =~= edges);
    dot.append("}\n");
    assert(dot@ =~= positioned_document(model@));
    Ok(dot)
}

} // verus!
