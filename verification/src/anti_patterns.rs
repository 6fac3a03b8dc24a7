//! Structural anti-patterns of a graph: a dependency cycle, nodes that too
//! many others depend on, nodes that depend on too many others, and nodes
//! without any relationship.
use vstd::prelude::*;
use crate::fixed::SCALE;
use crate::model::{first_index_of, lemma_first_index_extends, lemma_first_index_of, EdgeView, ModelView, OptaModel};
use crate::error::{OptaError, Threshold};

verus! {

/// A structural issue found in a graph.  Severities count millionths.
#[derive(Debug, Clone, PartialEq)]
pub enum AntiPattern {
    /// A circular dependency: each node depends on the next, the last on the
    /// first, and no node stands twice.  The nodes are the path of the
    /// traversal from the target of the edge that closes the cycle to the
    /// source of that edge.
    Cycle { nodes: Vec<String> },
    /// A node that many edges end at.
    Bottleneck { node_id: String, in_degree: usize, severity: i64 },
    /// A node without edges.
    IsolatedComponent { node_id: String },
    /// A node that many edges start from.
    OverCoupling { node_id: String, out_degree: usize, severity: i64 },
}

/// An anti-pattern as mathematical values.
pub enum PatternView {
    Cycle { nodes: Seq<Seq<char>> },
    Bottleneck { node_id: Seq<char>, in_degree: nat, severity: int },
    IsolatedComponent { node_id: Seq<char> },
    OverCoupling { node_id: Seq<char>, out_degree: nat, severity: int },
}

/// The texts of a sequence of strings.
pub open spec fn texts(strings: Seq<String>) -> Seq<Seq<char>> {
    Seq::new(strings.len(), |i: int| strings[i]@)
}

impl View for AntiPattern {
    type V = PatternView;

    open spec fn view(&self) -> PatternView {
        match *self {
            AntiPattern::Cycle { nodes } => PatternView::Cycle { nodes: texts(nodes@) },
            AntiPattern::Bottleneck { node_id, in_degree, severity } => PatternView::Bottleneck {
                node_id: node_id@,
                in_degree: in_degree as nat,
                severity: severity as int,
            },
            AntiPattern::IsolatedComponent { node_id } => PatternView::IsolatedComponent {
                node_id: node_id@,
            },
            AntiPattern::OverCoupling { node_id, out_degree, severity } => PatternView::OverCoupling {
                node_id: node_id@,
                out_degree: out_degree as nat,
                severity: severity as int,
            },
        }
    }
}

/// The views of a sequence of patterns.
pub open spec fn pattern_views(patterns: Seq<AntiPattern>) -> Seq<PatternView> {
    Seq::new(patterns.len(), |i: int| patterns[i]@)
}

/// What the detector looks for.
#[derive(Debug, Clone, Copy, PartialEq, Eq, Structural)]
pub struct AntiPatternConfig {
    /// The in-degree from which a node is a bottleneck.
    pub bottleneck_threshold: usize,
    /// The out-degree from which a node is over-coupled.
    pub over_coupling_threshold: usize,
    /// Whether nodes without edges are reported.
    pub detect_isolated: bool,
}

impl Default for AntiPatternConfig {
    /// Bottlenecks from five incoming edges, over-coupling from seven
    /// outgoing ones, isolated nodes reported.
    fn default() -> (config: Self)
        ensures
            config == (AntiPatternConfig {
                bottleneck_threshold: 5,
                over_coupling_threshold: 7,
                detect_isolated: true,
            }),
    {
        Self { bottleneck_threshold: 5, over_coupling_threshold: 7, detect_isolated: true }
    }
}

/// The threshold of a configuration that is below one, if there is one; the
/// bottleneck threshold if both are.
pub open spec fn invalid_threshold(config: AntiPatternConfig) -> Option<Threshold> {
    if config.bottleneck_threshold < 1 {
        Some(Threshold::Bottleneck)
    } else if config.over_coupling_threshold < 1 {
        Some(Threshold::OverCoupling)
    } else {
        None
    }
}

/// Accepts a configuration whose thresholds are both at least one, and
/// names the threshold that is not.
pub fn validate_config(config: &AntiPatternConfig) -> (r: Result<(), OptaError>)
    ensures
        r == match invalid_threshold(*config) {
            Some(threshold) => Err::<(), OptaError>(OptaError::InvalidConfiguration(threshold)),
            None => Ok::<(), OptaError>(()),
        },
{
    if config.bottleneck_threshold < 1 {
        return Err(OptaError::InvalidConfiguration(Threshold::Bottleneck));
    }
    if config.over_coupling_threshold < 1 {
        return Err(OptaError::InvalidConfiguration(Threshold::OverCoupling));
    }
    Ok(())
}

/// The severity of a degree against a threshold: their quotient, the
/// threshold taken as at least one; in millionths, rounded down, and
/// saturating.
pub open spec fn severity_of(degree: nat, threshold: nat) -> int {
    let divisor = if threshold < 1 { 1 } else { threshold as int };
    crate::fixed::saturate(degree * SCALE / divisor)
}

fn severity(degree: usize, threshold: usize) -> (s: i64)
    ensures
        s == severity_of(degree as nat, threshold as nat),
{
    let divisor: u128 = if threshold < 1 { 1 } else { threshold as u128 };
    let scaled: u128 = (degree as u128) * 1_000_000;
    let q: u128 = scaled / divisor;
    if q > i64::MAX as u128 {
        i64::MAX
    } else {
        q as i64
    }
}

/// A degree that reaches the threshold has a severity of at least one.
pub proof fn lemma_severity_at_least_one(degree: nat, threshold: nat)
    requires
        degree >= threshold,
        degree >= 1,
    ensures
        severity_of(degree, threshold) >= SCALE,
{
    let divisor = if threshold < 1 { 1 } else { threshold as int };
    let scaled = degree * SCALE;
    assert(scaled >= divisor * SCALE) by (nonlinear_arith)
        requires
            degree >= divisor,
            scaled == degree * SCALE,
    ;
    assert(scaled / divisor >= SCALE) by (nonlinear_arith)
        requires
            scaled >= divisor * SCALE,
            divisor >= 1,
    ;
}

/// The identifiers that edges start from, in order.
pub open spec fn sources(edges: Seq<EdgeView>) -> Seq<Seq<char>> {
    Seq::new(edges.len(), |i: int| edges[i].from)
}

/// The identifiers that edges end at, in order.
pub open spec fn destinations(edges: Seq<EdgeView>) -> Seq<Seq<char>> {
    Seq::new(edges.len(), |i: int| edges[i].to)
}

/// `ids` without repetitions: each identifier where it first occurs.
pub open spec fn distinct(ids: Seq<Seq<char>>) -> Seq<Seq<char>>
    decreases ids.len(),
{
    if ids.len() == 0 {
        Seq::empty()
    } else {
        let front = distinct(ids.drop_last());
        if front.contains(ids.last()) {
            front
        } else {
            front.push(ids.last())
        }
    }
}

/// The targets of the edges that start from `id`, in the order of the edges.
pub open spec fn targets_of(edges: Seq<EdgeView>, id: Seq<char>) -> Seq<Seq<char>>
    decreases edges.len(),
{
    if edges.len() == 0 {
        Seq::empty()
    } else {
        let front = targets_of(edges.drop_last(), id);
        if edges.last().from == id {
            front.push(edges.last().to)
        } else {
            front
        }
    }
}

/// The number of edges that start from `id`.
pub open spec fn out_degree(edges: Seq<EdgeView>, id: Seq<char>) -> nat {
    targets_of(edges, id).len()
}

/// The number of edges that end at `id`.
pub open spec fn in_degree(edges: Seq<EdgeView>, id: Seq<char>) -> nat
    decreases edges.len(),
{
    if edges.len() == 0 {
        0
    } else {
        in_degree(edges.drop_last(), id) + if edges.last().to == id { 1nat } else { 0nat }
    }
}

/// For each identifier that is a node or the source of an edge, the targets
/// of its edges.
pub struct Adjacency {
    pub keys: Vec<String>,
    pub targets: Vec<Vec<String>>,
}

/// An adjacency list as mathematical values.
pub struct AdjacencyView {
    pub keys: Seq<Seq<char>>,
    pub targets: Seq<Seq<Seq<char>>>,
}

impl View for Adjacency {
    type V = AdjacencyView;

    open spec fn view(&self) -> AdjacencyView {
        AdjacencyView {
            keys: texts(self.keys@),
            targets: Seq::new(self.targets.len() as nat, |i: int| texts(self.targets[i]@)),
        }
    }
}

/// The adjacency list of a graph.  Its keys are the identifiers of the nodes
/// and then those of the edges' sources, each once.
pub open spec fn adjacency_of(model: ModelView) -> AdjacencyView {
    let keys = distinct(model.ids() + sources(model.edges));
    AdjacencyView { keys, targets: Seq::new(keys.len(), |i: int| targets_of(model.edges, keys[i])) }
}

/// The position of `id` among `keys`.
pub fn index_in(keys: &Vec<String>, id: &String) -> (r: Option<usize>)
    ensures
        match r {
            Some(i) => i < keys.len() && first_index_of(texts(keys@), id@) == Some(i as int),
            None => first_index_of(texts(keys@), id@) is None,
        },
{
    let ghost ids = texts(keys@);
    let mut i: usize = 0;
    while i < keys.len()
        invariant
            i <= keys.len(),
            ids == texts(keys@),
            first_index_of(ids.take(i as int), id@) is None,
        decreases keys.len() - i,
    {
        assert(ids.take(i + 1).drop_last() =~= ids.take(i as int));
        if keys[i] == *id {
            proof {
                lemma_first_index_extends(ids, id@, i + 1);
            }
            return Some(i);
        }
        i = i + 1;
    }
    assert(ids.take(i as int) =~= ids);
    None
}

fn push_distinct(keys: &mut Vec<String>, id: &String)
    ensures
        texts(final(keys)@) == if texts(old(keys)@).contains(id@) {
            texts(old(keys)@)
        } else {
            texts(old(keys)@).push(id@)
        },
{
    proof {
        lemma_first_index_of(texts(keys@), id@);
    }
    match index_in(keys, id) {
        Some(_) => {},
        None => {
            keys.push(id.clone());
            assert(texts(keys@) =~= texts(old(keys)@).push(id@));
        },
    }
}

/// The adjacency list of the model's graph.
pub fn build_adjacency_map(model: &OptaModel) -> (adjacency: Adjacency)
    ensures
        adjacency@ == adjacency_of(model@),
        adjacency.keys.len() == adjacency.targets.len(),
{
    let ghost ids = model@.ids();
    let ghost froms = sources(model@.edges);
    let ghost edges = model@.edges;
    let mut keys: Vec<String> = Vec::new();
    let mut i: usize = 0;
    assert(texts(keys@) =~= distinct(ids.take(0)));
    while i < model.nodes.len()
        invariant
            i <= model.nodes.len(),
            ids == model@.ids(),
            texts(keys@) == distinct(ids.take(i as int)),
        decreases model.nodes.len() - i,
    {
        assert(ids.take(i + 1).drop_last() =~= ids.take(i as int));
        push_distinct(&mut keys, &model.nodes[i].id);
        i = i + 1;
    }
    assert(ids.take(i as int) =~= ids);
    assert(ids + froms.take(0) =~= ids);
    let mut k: usize = 0;
    while k < model.edges.len()
        invariant
            k <= model.edges.len(),
            ids == model@.ids(),
            froms == sources(model@.edges),
            texts(keys@) == distinct(ids + froms.take(k as int)),
        decreases model.edges.len() - k,
    {
        assert((ids + froms.take(k + 1)).drop_last() =~= ids + froms.take(k as int));
        push_distinct(&mut keys, &model.edges[k].from);
        k = k + 1;
    }
    assert(froms.take(k as int) =~= froms);
    let mut targets: Vec<Vec<String>> = Vec::new();
    let mut j: usize = 0;
    while j < keys.len()
        invariant
            j <= keys.len(),
            targets.len() == j,
            edges == model@.edges,
            forall|a: int|
                0 <= a < j ==> texts((#[trigger] targets[a])@) == targets_of(edges, keys[a]@),
        decreases keys.len() - j,
    {
        let mut list: Vec<String> = Vec::new();
        let mut e: usize = 0;
        assert(texts(list@) =~= targets_of(edges.take(0), keys[j as int]@));
        while e < model.edges.len()
            invariant
                e <= model.edges.len(),
                j < keys.len(),
                edges == model@.edges,
                texts(list@) == targets_of(edges.take(e as int), keys[j as int]@),
            decreases model.edges.len() - e,
        {
            assert(edges.take(e + 1).drop_last() =~= edges.take(e as int));
            if model.edges[e].from == keys[j] {
                list.push(model.edges[e].to.clone());
                assert(texts(list@) =~= targets_of(edges.take(e + 1), keys[j as int]@));
            }
            e = e + 1;
        }
        assert(edges.take(e as int) =~= edges);
        targets.push(list);
        j = j + 1;
    }
    let adjacency = Adjacency { keys, targets };
    assert(adjacency@.keys =~= adjacency_of(model@).keys);
    assert(adjacency@.targets =~= adjacency_of(model@).targets);
    adjacency
}

/// The bottleneck that `id` is, if it is one.
pub open spec fn bottleneck_at(edges: Seq<EdgeView>, threshold: nat, id: Seq<char>) -> Option<
    PatternView,
> {
    let degree = in_degree(edges, id);
    if degree >= threshold {
        Some(
            PatternView::Bottleneck {
                node_id: id,
                in_degree: degree,
                severity: severity_of(degree, threshold),
            },
        )
    } else {
        None
    }
}

/// The over-coupling that `id` shows, if it shows one.
pub open spec fn over_coupling_at(edges: Seq<EdgeView>, threshold: nat, id: Seq<char>) -> Option<
    PatternView,
> {
    let degree = out_degree(edges, id);
    if degree >= threshold {
        Some(
            PatternView::OverCoupling {
                node_id: id,
                out_degree: degree,
                severity: severity_of(degree, threshold),
            },
        )
    } else {
        None
    }
}

/// The isolated component that `id` is, if it is one.
pub open spec fn isolated_at(edges: Seq<EdgeView>, id: Seq<char>) -> Option<PatternView> {
    if out_degree(edges, id) == 0 && in_degree(edges, id) == 0 {
        Some(PatternView::IsolatedComponent { node_id: id })
    } else {
        None
    }
}

/// The identifiers whose in-degree is looked at: those of the nodes, then the
/// sources and then the targets of the edges, each once.
pub open spec fn bottleneck_candidates(model: ModelView) -> Seq<Seq<char>> {
    distinct(model.ids() + sources(model.edges) + destinations(model.edges))
}

/// The bottlenecks of a graph: each candidate whose in-degree reaches the
/// threshold, in the candidates' order.
pub open spec fn bottlenecks_of(model: ModelView, threshold: nat) -> Seq<PatternView> {
    bottleneck_candidates(model).filter_map(|id: Seq<char>| bottleneck_at(model.edges, threshold, id))
}

/// The over-coupled identifiers of a graph: each key of its adjacency list
/// whose out-degree reaches the threshold, in the keys' order.
pub open spec fn over_couplings_of(model: ModelView, threshold: nat) -> Seq<PatternView> {
    adjacency_of(model).keys.filter_map(
        |id: Seq<char>| over_coupling_at(model.edges, threshold, id),
    )
}

/// The isolated components of a graph: each node without edges, in the
/// nodes' order.
pub open spec fn isolated_of(model: ModelView) -> Seq<PatternView> {
    model.ids().filter_map(|id: Seq<char>| isolated_at(model.edges, id))
}

fn count_incoming(model: &OptaModel, id: &String) -> (n: usize)
    ensures
        n == in_degree(model@.edges, id@),
{
    let ghost edges = model@.edges;
    let mut n: usize = 0;
    let mut e: usize = 0;
    assert(edges.take(0) =~= Seq::<EdgeView>::empty());
    while e < model.edges.len()
        invariant
            e <= model.edges.len(),
            edges == model@.edges,
            n == in_degree(edges.take(e as int), id@),
            n <= e,
        decreases model.edges.len() - e,
    {
        assert(edges.take(e + 1).drop_last() =~= edges.take(e as int));
        if model.edges[e].to == *id {
            n = n + 1;
        }
        e = e + 1;
    }
    assert(edges.take(e as int) =~= edges);
    n
}

/// The bottlenecks of the model's graph.
pub fn detect_bottlenecks(model: &OptaModel, adjacency: &Adjacency, threshold: usize) -> (patterns:
    Vec<AntiPattern>)
    requires
        adjacency@ == adjacency_of(model@),
    ensures
        pattern_views(patterns@) == bottlenecks_of(model@, threshold as nat),
{
    let ghost ids = model@.ids();
    let ghost froms = sources(model@.edges);
    let ghost tos = destinations(model@.edges);
    let ghost edges = model@.edges;
    let mut keys: Vec<String> = Vec::new();
    let mut i: usize = 0;
    assert(texts(keys@) =~= distinct((ids + froms).take(0)));
    while i < adjacency.keys.len()
        invariant
            i <= adjacency.keys.len(),
            texts(adjacency.keys@) == distinct(ids + froms),
            texts(keys@) == texts(adjacency.keys@).take(i as int),
        decreases adjacency.keys.len() - i,
    {
        let ghost before = texts(keys@);
        keys.push(adjacency.keys[i].clone());
        assert(texts(keys@) =~= before.push(adjacency.keys[i as int]@));
        assert(texts(keys@) =~= texts(adjacency.keys@).take(i + 1));
        i = i + 1;
    }
    assert(texts(adjacency.keys@).take(i as int) =~= texts(adjacency.keys@));
    assert(ids + froms + tos.take(0) =~= ids + froms);
    let mut k: usize = 0;
    while k < model.edges.len()
        invariant
            k <= model.edges.len(),
            tos == destinations(model@.edges),
            texts(keys@) == distinct(ids + froms + tos.take(k as int)),
        decreases model.edges.len() - k,
    {
        assert((ids + froms + tos.take(k + 1)).drop_last() =~= ids + froms + tos.take(k as int));
        push_distinct(&mut keys, &model.edges[k].to);
        k = k + 1;
    }
    assert(tos.take(k as int) =~= tos);
    let ghost candidates = bottleneck_candidates(model@);
    let ghost pick = |id: Seq<char>| bottleneck_at(model@.edges, threshold as nat, id);
    let mut patterns: Vec<AntiPattern> = Vec::new();
    let mut j: usize = 0;
    assert(pattern_views(patterns@) =~= candidates.take(0).filter_map(pick));
    while j < keys.len()
        invariant
            j <= keys.len(),
            texts(keys@) == candidates,
            pick == |id: Seq<char>| bottleneck_at(model@.edges, threshold as nat, id),
            pattern_views(patterns@) == candidates.take(j as int).filter_map(pick),
        decreases keys.len() - j,
    {
        assert(candidates.take(j + 1).drop_last() =~= candidates.take(j as int));
        let degree: usize = count_incoming(model, &keys[j]);
        if degree >= threshold {
            patterns.push(
                AntiPattern::Bottleneck {
                    node_id: keys[j].clone(),
                    in_degree: degree,
                    severity: severity(degree, threshold),
                },
            );
            assert(pattern_views(patterns@) =~= candidates.take(j + 1).filter_map(pick));
        }
        j = j + 1;
    }
    assert(candidates.take(j as int) =~= candidates);
    patterns
}

/// The over-coupled identifiers of the model's graph.
pub fn detect_over_coupling(model: &OptaModel, adjacency: &Adjacency, threshold: usize) -> (patterns:
    Vec<AntiPattern>)
    requires
        adjacency@ == adjacency_of(model@),
        adjacency.keys.len() == adjacency.targets.len(),
    ensures
        pattern_views(patterns@) == over_couplings_of(model@, threshold as nat),
{
    let ghost keys = adjacency@.keys;
    let ghost pick = |id: Seq<char>| over_coupling_at(model@.edges, threshold as nat, id);
    let mut patterns: Vec<AntiPattern> = Vec::new();
    let mut j: usize = 0;
    assert(pattern_views(patterns@) =~= keys.take(0).filter_map(pick));
    while j < adjacency.keys.len()
        invariant
            j <= adjacency.keys.len(),
            adjacency@ == adjacency_of(model@),
            adjacency.keys.len() == adjacency.targets.len(),
            keys == adjacency@.keys,
            pick == |id: Seq<char>| over_coupling_at(model@.edges, threshold as nat, id),
            pattern_views(patterns@) == keys.take(j as int).filter_map(pick),
        decreases adjacency.keys.len() - j,
    {
        assert(keys.take(j + 1).drop_last() =~= keys.take(j as int));
        let degree: usize = adjacency.targets[j].len();
        assert(adjacency@.targets[j as int] == targets_of(model@.edges, keys[j as int]));
        assert(adjacency@.targets[j as int].len() == degree);
        if degree >= threshold {
            patterns.push(
                AntiPattern::OverCoupling {
                    node_id: adjacency.keys[j].clone(),
                    out_degree: degree,
                    severity: severity(degree, threshold),
                },
            );
            assert(pattern_views(patterns@) =~= keys.take(j + 1).filter_map(pick));
        }
        j = j + 1;
    }
    assert(keys.take(j as int) =~= keys);
    patterns
}

/// Each element of `ids` occurs in `distinct(ids)`.
pub proof fn lemma_distinct_contains(ids: Seq<Seq<char>>, i: int)
    requires
        0 <= i < ids.len(),
    ensures
        distinct(ids).contains(ids[i]),
    decreases ids.len(),
{
    let front = distinct(ids.drop_last());
    if i < ids.len() - 1 {
        lemma_distinct_contains(ids.drop_last(), i);
        let j = choose|j: int| 0 <= j < front.len() && front[j] == ids[i];
        assert(distinct(ids)[j] == ids[i]);
    } else if front.contains(ids.last()) {
    } else {
        assert(distinct(ids)[front.len() as int] == ids[i]);
    }
}

/// The isolated components of the model's graph.
pub fn detect_isolated_components(model: &OptaModel, adjacency: &Adjacency) -> (patterns: Vec<
    AntiPattern,
>)
    requires
        adjacency@ == adjacency_of(model@),
        adjacency.keys.len() == adjacency.targets.len(),
    ensures
        pattern_views(patterns@) == isolated_of(model@),
{
    let ghost ids = model@.ids();
    let ghost pick = |id: Seq<char>| isolated_at(model@.edges, id);
    let mut patterns: Vec<AntiPattern> = Vec::new();
    let mut j: usize = 0;
    assert(pattern_views(patterns@) =~= ids.take(0).filter_map(pick));
    while j < model.nodes.len()
        invariant
            j <= model.nodes.len(),
            adjacency@ == adjacency_of(model@),
            adjacency.keys.len() == adjacency.targets.len(),
            ids == model@.ids(),
            pick == |id: Seq<char>| isolated_at(model@.edges, id),
            pattern_views(patterns@) == ids.take(j as int).filter_map(pick),
        decreases model.nodes.len() - j,
    {
        assert(ids.take(j + 1).drop_last() =~= ids.take(j as int));
        let has_outgoing: bool = match index_in(&adjacency.keys, &model.nodes[j].id) {
            Some(a) => {
                assert(adjacency@.targets[a as int] == targets_of(
                    model@.edges,
                    adjacency@.keys[a as int],
                ));
                proof {
                    lemma_first_index_of(adjacency@.keys, model.nodes[j as int].id@);
                }
                adjacency.targets[a].len() > 0
            },
            None => {
                proof {
                    lemma_first_index_of(adjacency@.keys, model.nodes[j as int].id@);
                    lemma_distinct_contains(ids + sources(model@.edges), j as int);
                }
                false
            },
        };
        let has_incoming: bool = count_incoming(model, &model.nodes[j].id) > 0;
        if !has_outgoing && !has_incoming {
            patterns.push(AntiPattern::IsolatedComponent { node_id: model.nodes[j].id.clone() });
            assert(pattern_views(patterns@) =~= ids.take(j + 1).filter_map(pick));
        }
        j = j + 1;
    }
    assert(ids.take(j as int) =~= ids);
    patterns
}

/// The state of a node during the depth-first traversal.
#[derive(Debug, Clone, Copy, PartialEq, Eq, Structural)]
pub enum Color {
    /// Not reached yet.
    White,
    /// Reached, and on the path that is being followed.
    Gray,
    /// Done: all that can be reached from it has been seen.
    Black,
}

/// The number of white nodes.
pub open spec fn count_white(colors: Seq<Color>) -> nat
    decreases colors.len(),
{
    if colors.len() == 0 {
        0
    } else {
        count_white(colors.drop_last()) + if colors.last() is White { 1nat } else { 0nat }
    }
}

/// The successors of a frame's node that are still to be looked at.
pub open spec fn remaining(graph: Seq<Seq<int>>, frame: (int, int)) -> nat {
    if 0 <= frame.0 < graph.len() && 0 <= frame.1 <= graph[frame.0].len() {
        (graph[frame.0].len() - frame.1) as nat
    } else {
        0
    }
}

/// The work that a path still holds: its frames and their remaining
/// successors.
pub open spec fn pending(graph: Seq<Seq<int>>, path: Seq<(int, int)>) -> nat
    decreases path.len(),
{
    if path.len() == 0 {
        0
    } else {
        pending(graph, path.drop_last()) + 1 + remaining(graph, path.last())
    }
}

/// The nodes of a path, from its root to its tip.
pub open spec fn path_nodes(path: Seq<(int, int)>) -> Seq<int> {
    Seq::new(path.len(), |i: int| path[i].0)
}

/// The nodes that follow the last occurrence of `start` on a path.
pub open spec fn path_after(nodes: Seq<int>, start: int) -> Seq<int>
    decreases nodes.len(),
{
    if nodes.len() == 0 || nodes.last() == start {
        Seq::empty()
    } else {
        path_after(nodes.drop_last(), start).push(nodes.last())
    }
}

/// The cycle that an edge from the tip of a path back to `start`, a node on
/// the path, closes: the path from `start` to its tip, that is `start` and
/// the nodes that follow it on the path.
pub open spec fn closed_cycle(path: Seq<(int, int)>, start: int) -> Seq<int> {
    seq![start] + path_after(path_nodes(path), start)
}

/// How a traversal ended: with the cycle that it found, if any, and the
/// colours it left.
pub struct Search {
    pub cycle: Option<Seq<int>>,
    pub colors: Seq<Color>,
}

/// Changing a colour changes the number of white nodes by what the old and
/// the new colour say.
pub proof fn lemma_count_white_update(colors: Seq<Color>, i: int, color: Color)
    requires
        0 <= i < colors.len(),
    ensures
        count_white(colors.update(i, color)) + (if colors[i] is White { 1nat } else { 0nat })
            == count_white(colors) + (if color is White { 1nat } else { 0nat }),
    decreases colors.len(),
{
    let changed = colors.update(i, color);
    if i == colors.len() - 1 {
        assert(changed.drop_last() =~= colors.drop_last());
    } else {
        assert(changed.drop_last() =~= colors.drop_last().update(i, color));
        lemma_count_white_update(colors.drop_last(), i, color);
    }
}

/// The depth-first traversal from a path on.  A path is a sequence of frames,
/// each a node and the number of its successors already looked at; the nodes
/// on the path are the gray ones.  The traversal looks at the next successor
/// of the path's tip: a white one is coloured gray and becomes the new tip, a
/// black one is passed over, and a gray one ends the traversal with the cycle
/// that it closes.  A tip without further successors is coloured black and
/// leaves the path.  The traversal ends without a cycle when the path is
/// empty.
pub open spec fn search(graph: Seq<Seq<int>>, colors: Seq<Color>, path: Seq<(int, int)>) -> Search
    decreases count_white(colors), pending(graph, path),
{
    if path.len() == 0 {
        Search { cycle: None, colors }
    } else {
        let (node, next) = path.last();
        if !(0 <= node < graph.len() && node < colors.len() && 0 <= next) {
            Search { cycle: None, colors }
        } else if next >= graph[node].len() {
            proof {
                lemma_count_white_update(colors, node, Color::Black);
            }
            search(graph, colors.update(node, Color::Black), path.drop_last())
        } else {
            let successor = graph[node][next];
            let advanced = path.drop_last().push((node, next + 1));
            proof {
                assert(advanced.drop_last() =~= path.drop_last());
                assert(advanced.push((successor, 0int)).drop_last() =~= advanced);
                if 0 <= successor < colors.len() {
                    lemma_count_white_update(colors, successor, Color::Gray);
                }
            }
            if !(0 <= successor < colors.len()) {
                search(graph, colors, advanced)
            } else {
                match colors[successor] {
                    Color::Gray => Search { cycle: Some(closed_cycle(path, successor)), colors },
                    Color::White => search(
                        graph,
                        colors.update(successor, Color::Gray),
                        advanced.push((successor, 0int)),
                    ),
                    Color::Black => search(graph, colors, advanced),
                }
            }
        }
    }
}

/// The first cycle that the traversals from the white nodes `root`,
/// `root + 1`, ... find, each starting with the colours that the one before
/// left.
pub open spec fn first_cycle_from(graph: Seq<Seq<int>>, colors: Seq<Color>, root: int) -> Option<
    Seq<int>,
>
    decreases graph.len() - root,
{
    if root < 0 || root >= graph.len() || root >= colors.len() {
        None
    } else if colors[root] is White {
        let found = search(graph, colors.update(root, Color::Gray), seq![(root, 0int)]);
        match found.cycle {
            Some(cycle) => Some(cycle),
            None => first_cycle_from(graph, found.colors, root + 1),
        }
    } else {
        first_cycle_from(graph, colors, root + 1)
    }
}

/// The first cycle that a depth-first traversal of the whole graph finds.
pub open spec fn first_cycle(graph: Seq<Seq<int>>) -> Option<Seq<int>> {
    first_cycle_from(graph, Seq::new(graph.len(), |i: int| Color::White), 0)
}

/// The successor lists of a graph as mathematical values.
pub open spec fn graph_view(graph: Seq<Vec<usize>>) -> Seq<Seq<int>> {
    Seq::new(graph.len(), |i: int| Seq::new(graph[i]@.len(), |j: int| graph[i]@[j] as int))
}

/// A path as mathematical values.
pub open spec fn path_view(path: Seq<(usize, usize)>) -> Seq<(int, int)> {
    Seq::new(path.len(), |i: int| (path[i].0 as int, path[i].1 as int))
}

/// Node numbers as mathematical values.
pub open spec fn numbers(nodes: Seq<usize>) -> Seq<int> {
    Seq::new(nodes.len(), |i: int| nodes[i] as int)
}

/// Whether every successor in the graph is a node of it.
pub open spec fn closed_graph(graph: Seq<Seq<int>>) -> bool {
    forall|i: int, j: int|
        0 <= i < graph.len() && 0 <= j < graph[i].len() ==> 0 <= #[trigger] graph[i][j]
            < graph.len()
}

/// Whether `node` is on `path`.
pub open spec fn on_path(path: Seq<(usize, usize)>, node: usize) -> bool {
    exists|j: int| 0 <= j < path.len() && path[j].0 == node
}

/// The cycle that an edge from the tip of `path` back to `start` closes: the
/// path from `start` to the tip.
pub fn reconstruct_cycle(start: usize, path: &Vec<(usize, usize)>) -> (cycle: Vec<usize>)
    ensures
        numbers(cycle@) == closed_cycle(path_view(path@), start as int),
        forall|i: int| 0 <= i < cycle.len() ==> cycle[i] == start || #[trigger] on_path(path@, cycle[i]),
{
    let ghost nodes = path_nodes(path_view(path@));
    let mut from: usize = path.len();
    assert(nodes.subrange(from as int, nodes.len() as int) =~= Seq::<int>::empty());
    assert(nodes.take(from as int) =~= nodes);
    while from > 0 && path[from - 1].0 != start
        invariant
            from <= path.len(),
            nodes == path_nodes(path_view(path@)),
            path_after(nodes, start as int) == path_after(nodes.take(from as int), start as int)
                + nodes.subrange(from as int, nodes.len() as int),
        decreases from,
    {
        assert(nodes.take(from as int).drop_last() =~= nodes.take(from - 1));
        assert(path_after(nodes.take(from - 1), start as int).push(nodes[from - 1]) + nodes.subrange(
            from as int,
            nodes.len() as int,
        ) =~= path_after(nodes.take(from - 1), start as int) + nodes.subrange(
            from - 1,
            nodes.len() as int,
        ));
        from = from - 1;
    }
    let mut cycle: Vec<usize> = Vec::new();
    cycle.push(start);
    assert(numbers(cycle@) =~= seq![start as int] + nodes.subrange(from as int, from as int));
    let mut i: usize = from;
    while i < path.len()
        invariant
            from <= i <= path.len(),
            nodes == path_nodes(path_view(path@)),
            numbers(cycle@) == seq![start as int] + nodes.subrange(from as int, i as int),
            forall|a: int|
                0 <= a < cycle.len() ==> cycle[a] == start || #[trigger] on_path(path@, cycle[a]),
        decreases path.len() - i,
    {
        let ghost prior = numbers(cycle@);
        cycle.push(path[i].0);
        assert(nodes[i as int] == path[i as int].0);
        assert(numbers(cycle@) =~= prior.push(path[i as int].0 as int));
        assert(numbers(cycle@) =~= seq![start as int] + nodes.subrange(from as int, i + 1));
        assert(path[i as int].0 == cycle[cycle.len() - 1]);
        i = i + 1;
    }
    assert(nodes.subrange(from as int, nodes.len() as int) =~= path_after(nodes, start as int));
    cycle
}

/// The depth-first traversal from the white node `root`.
pub fn dfs_visit(root: usize, graph: &Vec<Vec<usize>>, colors: &mut Vec<Color>) -> (cycle: Option<
    Vec<usize>,
>)
    requires
        root < graph.len(),
        old(colors).len() == graph.len(),
        closed_graph(graph_view(graph@)),
    ensures
        final(colors).len() == graph.len(),
        ({
            let found = search(
                graph_view(graph@),
                old(colors)@.update(root as int, Color::Gray),
                seq![(root as int, 0int)],
            );
            &&& final(colors)@ == found.colors
            &&& match cycle {
                Some(nodes) => found.cycle == Some(numbers(nodes@)) && forall|i: int|
                    0 <= i < nodes.len() ==> #[trigger] nodes[i] < graph.len(),
                None => found.cycle is None,
            }
        }),
{
    let ghost g = graph_view(graph@);
    colors.set(root, Color::Gray);
    let mut path: Vec<(usize, usize)> = Vec::new();
    path.push((root, 0));
    assert(path_view(path@) =~= seq![(root as int, 0int)]);
    let ghost wanted = search(g, colors@, path_view(path@));
    while path.len() > 0
        invariant
            g == graph_view(graph@),
            closed_graph(g),
            colors.len() == graph.len(),
            forall|i: int|
                0 <= i < path.len() ==> (#[trigger] path[i]).0 < graph.len() && path[i].1
                    <= graph[path[i].0 as int].len(),
            search(g, colors@, path_view(path@)) == wanted,
            wanted == search(
                g,
                old(colors)@.update(root as int, Color::Gray),
                seq![(root as int, 0int)],
            ),
        decreases count_white(colors@), pending(g, path_view(path@)),
    {
        let ghost frames = path_view(path@);
        let ghost before = colors@;
        let depth: usize = path.len();
        let (node, next) = path[depth - 1];
        assert(frames.last() == (node as int, next as int));
        if next >= graph[node].len() {
            colors.set(node, Color::Black);
            path.pop();
            proof {
                assert(path_view(path@) =~= frames.drop_last());
                lemma_count_white_update(before, node as int, Color::Black);
            }
        } else {
            let successor: usize = graph[node][next];
            assert(g[node as int][next as int] == successor);
            path.set(depth - 1, (node, next + 1));
            let ghost advanced = frames.drop_last().push((node as int, next + 1));
            proof {
                assert(path_view(path@) =~= advanced);
                assert(advanced.drop_last() =~= frames.drop_last());
                assert(path_nodes(advanced) =~= path_nodes(frames));
            }
            match colors[successor] {
                Color::Gray => {
                    let cycle = reconstruct_cycle(successor, &path);
                    proof {
                        assert(closed_cycle(advanced, successor as int) == closed_cycle(
                            frames,
                            successor as int,
                        ));

                        assert forall|i: int| 0 <= i < cycle.len() implies #[trigger] cycle[i]
                            < graph.len() by {
                            if cycle[i] != successor {
                                assert(on_path(path@, cycle[i]));
                                let j = choose|j: int| 0 <= j < path.len() && path[j].0 == cycle[i];
                                assert(path[j].0 < graph.len());
                            }
                        }
                    }
                    return Some(cycle);
                },
                Color::White => {
                    colors.set(successor, Color::Gray);
                    path.push((successor, 0));
                    proof {
                        assert(path_view(path@) =~= advanced.push((successor as int, 0int)));
                        assert(advanced.push((successor as int, 0int)).drop_last() =~= advanced);
                        lemma_count_white_update(before, successor as int, Color::Gray);
                    }
                },
                Color::Black => {},
            }
        }
    }
    None
}

/// The nodes of the traversed graph: the identifiers of the model's nodes,
/// each once, in the order of its first node.
pub open spec fn node_keys(model: ModelView) -> Seq<Seq<char>> {
    distinct(model.ids())
}

/// The successors of `id` in the traversed graph: the targets of its edges
/// that are nodes, in the order of the edges, as positions among the nodes.
pub open spec fn successors_of(model: ModelView, id: Seq<char>) -> Seq<int> {
    targets_of(model.edges, id).filter_map(|target: Seq<char>| first_index_of(node_keys(model), target))
}

/// The traversed graph: for each node, its successors.
pub open spec fn graph_of(model: ModelView) -> Seq<Seq<int>> {
    Seq::new(node_keys(model).len(), |i: int| successors_of(model, node_keys(model)[i]))
}

/// The identifiers of the nodes with the given positions.
pub open spec fn names(keys: Seq<Seq<char>>, cycle: Seq<int>) -> Seq<Seq<char>> {
    Seq::new(cycle.len(), |i: int| keys[cycle[i]])
}

/// The cycle of a graph, if it has one: the first that the depth-first
/// traversal finds.  No further cycle is reported.
pub open spec fn cycles_of(model: ModelView) -> Seq<PatternView> {
    match first_cycle(graph_of(model)) {
        Some(cycle) => seq![PatternView::Cycle { nodes: names(node_keys(model), cycle) }],
        None => Seq::empty(),
    }
}

/// Each element of `distinct(ids)` occurs in `ids`.
pub proof fn lemma_distinct_members(ids: Seq<Seq<char>>, j: int)
    requires
        0 <= j < distinct(ids).len(),
    ensures
        ids.contains(distinct(ids)[j]),
    decreases ids.len(),
{
    if ids.len() > 0 {
        let front = distinct(ids.drop_last());
        if j < front.len() {
            lemma_distinct_members(ids.drop_last(), j);
            let i = choose|i: int| 0 <= i < ids.drop_last().len() && ids.drop_last()[i] == front[j];
            assert(ids[i] == distinct(ids)[j]);
        } else {
            assert(ids[ids.len() - 1] == distinct(ids)[j]);
        }
    }
}

fn successors(model: &OptaModel, adjacency: &Adjacency, keys: &Vec<String>, i: usize) -> (list: Vec<
    usize,
>)
    requires
        adjacency@ == adjacency_of(model@),
        adjacency.keys.len() == adjacency.targets.len(),
        texts(keys@) == node_keys(model@),
        i < keys.len(),
    ensures
        numbers(list@) == successors_of(model@, keys[i as int]@),
        forall|j: int| 0 <= j < list.len() ==> #[trigger] list[j] < keys.len(),
{
    let ghost pick = |target: Seq<char>| first_index_of(node_keys(model@), target);
    let mut list: Vec<usize> = Vec::new();
    proof {
        lemma_first_index_of(adjacency@.keys, keys[i as int]@);
    }
    match index_in(&adjacency.keys, &keys[i]) {
        Some(a) => {
            let ghost targets = adjacency@.targets[a as int];
            assert(targets == targets_of(model@.edges, keys[i as int]@));
            let mut t: usize = 0;
            assert(numbers(list@) =~= targets.take(0).filter_map(pick));
            while t < adjacency.targets[a].len()
                invariant
                    t <= adjacency.targets[a as int].len(),
                    a < adjacency.targets.len(),
                    targets == texts(adjacency.targets[a as int]@),
                    texts(keys@) == node_keys(model@),
                    pick == |target: Seq<char>| first_index_of(node_keys(model@), target),
                    numbers(list@) == targets.take(t as int).filter_map(pick),
                    forall|j: int| 0 <= j < list.len() ==> #[trigger] list[j] < keys.len(),
                decreases adjacency.targets[a as int].len() - t,
            {
                assert(targets.take(t + 1).drop_last() =~= targets.take(t as int));
                let ghost prior = numbers(list@);
                match index_in(keys, &adjacency.targets[a][t]) {
                    Some(j) => {
                        list.push(j);
                        assert(numbers(list@) =~= prior + seq![j as int]);
                    },
                    None => {},
                }
                t = t + 1;
            }
            assert(targets.take(t as int) =~= targets);
        },
        None => {
            proof {
                lemma_distinct_members(model@.ids(), i as int);
                let ids = model@.ids();
                let n = choose|n: int| 0 <= n < ids.len() && ids[n] == keys[i as int]@;
                lemma_distinct_contains(ids + sources(model@.edges), n);
            }
        },
    }
    list
}

/// The cycle of the model's graph, if it has one.
pub fn detect_cycles(model: &OptaModel, adjacency: &Adjacency) -> (patterns: Vec<AntiPattern>)
    requires
        adjacency@ == adjacency_of(model@),
        adjacency.keys.len() == adjacency.targets.len(),
    ensures
        pattern_views(patterns@) == cycles_of(model@),
{
    let ghost ids = model@.ids();
    let mut keys: Vec<String> = Vec::new();
    let mut i: usize = 0;
    assert(texts(keys@) =~= distinct(ids.take(0)));
    while i < model.nodes.len()
        invariant
            i <= model.nodes.len(),
            ids == model@.ids(),
            texts(keys@) == distinct(ids.take(i as int)),
        decreases model.nodes.len() - i,
    {
        assert(ids.take(i + 1).drop_last() =~= ids.take(i as int));
        push_distinct(&mut keys, &model.nodes[i].id);
        i = i + 1;
    }
    assert(ids.take(i as int) =~= ids);
    let mut graph: Vec<Vec<usize>> = Vec::new();
    let mut colors: Vec<Color> = Vec::new();
    let mut k: usize = 0;
    while k < keys.len()
        invariant
            k <= keys.len(),
            adjacency@ == adjacency_of(model@),
            adjacency.keys.len() == adjacency.targets.len(),
            texts(keys@) == node_keys(model@),
            graph.len() == k,
            colors.len() == k,
            forall|a: int| 0 <= a < k ==> #[trigger] colors[a] == Color::White,
            forall|a: int|
                0 <= a < k ==> numbers((#[trigger] graph[a])@) == successors_of(model@, keys[a]@),
            forall|a: int, b: int|
                0 <= a < k && 0 <= b < graph[a].len() ==> #[trigger] graph[a][b] < keys.len(),
        decreases keys.len() - k,
    {
        let list = successors(model, adjacency, &keys, k);
        graph.push(list);
        colors.push(Color::White);
        k = k + 1;
    }
    let ghost g = graph_view(graph@);
    proof {
        assert forall|a: int| 0 <= a < g.len() implies g[a] == graph_of(model@)[a] by {
            assert(g[a] =~= numbers(graph[a]@));
        }
        assert(g =~= graph_of(model@));
        assert(colors@ =~= Seq::new(g.len(), |i: int| Color::White));
        assert forall|a: int, b: int| 0 <= a < g.len() && 0 <= b < g[a].len() implies 0
            <= #[trigger] g[a][b] < g.len() by {
            assert(graph[a][b] < keys.len());
        }
    }
    let mut root: usize = 0;
    while root < graph.len()
        invariant
            root <= graph.len(),
            g == graph_view(graph@),
            g == graph_of(model@),
            closed_graph(g),
            colors.len() == graph.len(),
            graph.len() == keys.len(),
            texts(keys@) == node_keys(model@),
            first_cycle_from(g, colors@, root as int) == first_cycle(g),
        decreases graph.len() - root,
    {
        if colors[root] == Color::White {
            match dfs_visit(root, &graph, &mut colors) {
                Some(cycle) => {
                    let mut nodes: Vec<String> = Vec::new();
                    let mut c: usize = 0;
                    while c < cycle.len()
                        invariant
                            c <= cycle.len(),
                            forall|a: int| 0 <= a < cycle.len() ==> #[trigger] cycle[a] < keys.len(),
                            texts(nodes@) == names(texts(keys@), numbers(cycle@)).take(c as int),
                        decreases cycle.len() - c,
                    {
                        let ghost prior = texts(nodes@);
                        nodes.push(keys[cycle[c]].clone());
                        assert(texts(nodes@) =~= prior.push(keys[cycle[c as int] as int]@));
                        assert(texts(nodes@) =~= names(texts(keys@), numbers(cycle@)).take(c + 1));
                        c = c + 1;
                    }
                    assert(names(texts(keys@), numbers(cycle@)).take(c as int) =~= names(
                        texts(keys@),
                        numbers(cycle@),
                    ));
                    let mut patterns: Vec<AntiPattern> = Vec::new();
                    patterns.push(AntiPattern::Cycle { nodes });
                    assert(pattern_views(patterns@) =~= cycles_of(model@));
                    return patterns;
                },
                None => {},
            }
        }
        root = root + 1;
    }
    let patterns: Vec<AntiPattern> = Vec::new();
    assert(pattern_views(patterns@) =~= cycles_of(model@));
    patterns
}

/// The anti-patterns of a graph: none for a graph without nodes; else its
/// cycle, its bottlenecks, its over-coupled identifiers and, if they are
/// asked for, its isolated components.
pub open spec fn patterns_of(model: ModelView, config: AntiPatternConfig) -> Seq<PatternView> {
    if model.nodes.len() == 0 {
        Seq::empty()
    } else {
        cycles_of(model) + bottlenecks_of(model, config.bottleneck_threshold as nat)
            + over_couplings_of(model, config.over_coupling_threshold as nat) + if config.detect_isolated {
            isolated_of(model)
        } else {
            Seq::empty()
        }
    }
}

/// Looks for anti-patterns in the model's graph.  Detection never fails.
pub fn detect_anti_patterns(model: &OptaModel, config: &AntiPatternConfig) -> (r: Result<
    Vec<AntiPattern>,
    OptaError,
>)
    ensures
        r is Ok,
        pattern_views(r->Ok_0@) == patterns_of(model@, *config),
{
    let mut patterns: Vec<AntiPattern> = Vec::new();
    if model.node_count() == 0 {
        assert(pattern_views(patterns@) =~= patterns_of(model@, *config));
        return Ok(patterns);
    }
    let adjacency = build_adjacency_map(model);
    let mut cycles = detect_cycles(model, &adjacency);
    let mut bottlenecks = detect_bottlenecks(model, &adjacency, config.bottleneck_threshold);
    let mut couplings = detect_over_coupling(model, &adjacency, config.over_coupling_threshold);
    let ghost a = pattern_views(cycles@);
    let ghost b = pattern_views(bottlenecks@);
    let ghost c = pattern_views(couplings@);
    patterns.append(&mut cycles);
    patterns.append(&mut bottlenecks);
    patterns.append(&mut couplings);
    assert(pattern_views(patterns@) =~= a + b + c);
    if config.detect_isolated {
        let mut isolated = detect_isolated_components(model, &adjacency);
        let ghost d = pattern_views(isolated@);
        patterns.append(&mut isolated);
        assert(pattern_views(patterns@) =~= a + b + c + d);
    } else {
        assert(pattern_views(patterns@) =~= a + b + c + Seq::<PatternView>::empty());
    }
    Ok(patterns)
}

} // verus!
