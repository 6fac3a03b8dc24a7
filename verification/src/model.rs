//! The graph model: typed nodes, weighted directed edges and the cached
//! adjacency matrix derived from them.
use vstd::prelude::*;
use crate::fixed::SCALE;

verus! {

/// The kind of architectural element that a node stands for.
#[derive(Debug, Clone, Copy, PartialEq, Eq, Structural)]
pub enum NodeType {
    System,
    Container,
    Component,
    Person,
}

/// An architectural element.
#[derive(Debug, Clone)]
pub struct OptaNode {
    pub id: String,
    pub name: String,
    pub node_type: NodeType,
    pub description: Option<String>,
    pub technology: Option<String>,
    /// Coordinates in millionths; absent until a layout has run.
    pub position: Option<(i64, i64)>,
}

/// What a node holds, as mathematical values.
pub struct NodeView {
    pub id: Seq<char>,
    pub name: Seq<char>,
    pub node_type: NodeType,
    pub description: Option<Seq<char>>,
    pub technology: Option<Seq<char>>,
    pub position: Option<(int, int)>,
}

/// The characters of an optional string.
pub open spec fn opt_text(s: Option<String>) -> Option<Seq<char>> {
    match s {
        Some(t) => Some(t@),
        None => None,
    }
}

impl View for OptaNode {
    type V = NodeView;

    open spec fn view(&self) -> NodeView {
        NodeView {
            id: self.id@,
            name: self.name@,
            node_type: self.node_type,
            description: opt_text(self.description),
            technology: opt_text(self.technology),
            position: match self.position {
                Some(p) => Some((p.0 as int, p.1 as int)),
                None => None,
            },
        }
    }
}

impl OptaNode {
    /// A node without description, technology or position.
    pub fn new(id: String, name: String, node_type: NodeType) -> (node: Self)
        ensures
            node@ == (NodeView {
                id: id@,
                name: name@,
                node_type,
                description: None,
                technology: None,
                position: None,
            }),
    {
        Self { id, name, node_type, description: None, technology: None, position: None }
    }

    /// The same node with its description set.
    pub fn with_description(self, description: String) -> (node: Self)
        ensures
            node@ == (NodeView { description: Some(description@), ..self@ }),
    {
        let mut node = self;
        node.description = Some(description);
        node
    }

    /// The same node with its technology set.
    pub fn with_technology(self, technology: String) -> (node: Self)
        ensures
            node@ == (NodeView { technology: Some(technology@), ..self@ }),
    {
        let mut node = self;
        node.technology = Some(technology);
        node
    }

    /// Places the node at `(x, y)`.
    pub fn set_position(&mut self, x: i64, y: i64)
        ensures
            final(self)@ == (NodeView { position: Some((x as int, y as int)), ..old(self)@ }),
    {
        self.position = Some((x, y));
    }

    /// The node's coordinates, if it has been placed.
    pub fn get_position(&self) -> (p: Option<(i64, i64)>)
        ensures
            p == self.position,
    {
        self.position
    }
}

/// A directed, weighted relationship between two node identifiers.
#[derive(Debug, Clone)]
pub struct OptaEdge {
    pub from: String,
    pub to: String,
    pub label: Option<String>,
    /// The weight in millionths.
    pub weight: i64,
}

/// What an edge holds, as mathematical values.
pub struct EdgeView {
    pub from: Seq<char>,
    pub to: Seq<char>,
    pub label: Option<Seq<char>>,
    pub weight: int,
}

impl View for OptaEdge {
    type V = EdgeView;

    open spec fn view(&self) -> EdgeView {
        EdgeView {
            from: self.from@,
            to: self.to@,
            label: opt_text(self.label),
            weight: self.weight as int,
        }
    }
}

impl OptaEdge {
    /// An unlabelled edge of weight one.
    pub fn new(from: String, to: String) -> (edge: Self)
        ensures
            edge@ == (EdgeView { from: from@, to: to@, label: None, weight: SCALE as int }),
    {
        Self { from, to, label: None, weight: SCALE }
    }

    /// The same edge with its label set.
    pub fn with_label(self, label: String) -> (edge: Self)
        ensures
            edge@ == (EdgeView { label: Some(label@), ..self@ }),
    {
        let mut edge = self;
        edge.label = Some(label);
        edge
    }

    /// The same edge with its weight set.
    pub fn with_weight(self, weight: i64) -> (edge: Self)
        ensures
            edge@ == (EdgeView { weight: weight as int, ..self@ }),
    {
        let mut edge = self;
        edge.weight = weight;
        edge
    }
}

/// The identifiers of a sequence of nodes, in order.
pub open spec fn node_ids(nodes: Seq<NodeView>) -> Seq<Seq<char>> {
    Seq::new(nodes.len(), |i: int| nodes[i].id)
}

/// The position of the first occurrence of `id` in `ids`.
pub open spec fn first_index_of(ids: Seq<Seq<char>>, id: Seq<char>) -> Option<int>
    decreases ids.len(),
{
    if ids.len() == 0 {
        None
    } else {
        match first_index_of(ids.drop_last(), id) {
            Some(i) => Some(i),
            None => if ids.last() == id {
                Some(ids.len() - 1)
            } else {
                None
            },
        }
    }
}

/// The position of the last occurrence of `id` in `ids`.
pub open spec fn last_index_of(ids: Seq<Seq<char>>, id: Seq<char>) -> Option<int>
    decreases ids.len(),
{
    if ids.len() == 0 {
        None
    } else if ids.last() == id {
        Some(ids.len() - 1)
    } else {
        last_index_of(ids.drop_last(), id)
    }
}

/// What the first occurrence is: an occurrence with none before it.
pub proof fn lemma_first_index_of(ids: Seq<Seq<char>>, id: Seq<char>)
    ensures
        match first_index_of(ids, id) {
            Some(i) => 0 <= i < ids.len() && ids[i] == id && forall|j: int|
                0 <= j < i ==> ids[j] != id,
            None => forall|j: int| 0 <= j < ids.len() ==> ids[j] != id,
        },
    decreases ids.len(),
{
    if ids.len() > 0 {
        let front = ids.drop_last();
        lemma_first_index_of(front, id);
        assert(forall|j: int| 0 <= j < front.len() ==> front[j] == ids[j]);
    }
}

/// What the last occurrence is: an occurrence with none after it.
pub proof fn lemma_last_index_of(ids: Seq<Seq<char>>, id: Seq<char>)
    ensures
        match last_index_of(ids, id) {
            Some(i) => 0 <= i < ids.len() && ids[i] == id && forall|j: int|
                i < j < ids.len() ==> ids[j] != id,
            None => forall|j: int| 0 <= j < ids.len() ==> ids[j] != id,
        },
    decreases ids.len(),
{
    if ids.len() > 0 {
        let front = ids.drop_last();
        lemma_last_index_of(front, id);
        assert(forall|j: int| 0 <= j < front.len() ==> front[j] == ids[j]);
    }
}

/// The weight that the adjacency matrix holds for the ordered pair `(i, j)`:
/// that of the last edge whose endpoints resolve to `i` and `j`, or zero.
/// An identifier resolves to the last node that carries it.
pub open spec fn cell(ids: Seq<Seq<char>>, edges: Seq<EdgeView>, i: int, j: int) -> int
    decreases edges.len(),
{
    if edges.len() == 0 {
        0
    } else {
        let e = edges.last();
        if last_index_of(ids, e.from) == Some(i) && last_index_of(ids, e.to) == Some(j) {
            e.weight
        } else {
            cell(ids, edges.drop_last(), i, j)
        }
    }
}

/// The adjacency matrix of a graph: absent without nodes, else square with
/// one row and one column per node, in insertion order.
pub open spec fn matrix_of(ids: Seq<Seq<char>>, edges: Seq<EdgeView>) -> Option<Seq<Seq<int>>> {
    if ids.len() == 0 {
        None
    } else {
        Some(Seq::new(ids.len(), |i: int| Seq::new(ids.len(), |j: int| cell(ids, edges, i, j))))
    }
}

/// The rows of a matrix as mathematical values.
pub open spec fn rows_view(rows: Vec<Vec<i64>>) -> Seq<Seq<int>> {
    Seq::new(rows.len() as nat, |i: int| Seq::new(rows[i].len() as nat, |j: int| rows[i][j] as int))
}

/// Whether `m` is a square matrix of side `n`.
pub open spec fn is_square(m: Seq<Seq<int>>, n: int) -> bool {
    m.len() == n && forall|i: int| 0 <= i < n ==> (#[trigger] m[i]).len() == n
}

/// A graph: nodes and edges in insertion order, and the adjacency matrix as
/// it was last built.
#[derive(Debug)]
pub struct OptaModel {
    pub nodes: Vec<OptaNode>,
    pub edges: Vec<OptaEdge>,
    pub adjacency_matrix: Option<Vec<Vec<i64>>>,
}

/// What a model holds, as mathematical values.
pub struct ModelView {
    pub nodes: Seq<NodeView>,
    pub edges: Seq<EdgeView>,
    pub matrix: Option<Seq<Seq<int>>>,
}

impl View for OptaModel {
    type V = ModelView;

    open spec fn view(&self) -> ModelView {
        ModelView {
            nodes: Seq::new(self.nodes.len() as nat, |i: int| self.nodes[i]@),
            edges: Seq::new(self.edges.len() as nat, |i: int| self.edges[i]@),
            matrix: match self.adjacency_matrix {
                Some(rows) => Some(rows_view(rows)),
                None => None,
            },
        }
    }
}

impl ModelView {
    /// The identifiers of the nodes, in insertion order.
    pub open spec fn ids(self) -> Seq<Seq<char>> {
        node_ids(self.nodes)
    }

    /// Whether the matrix is present and has one row and column per node.
    pub open spec fn matrix_usable(self) -> bool {
        match self.matrix {
            Some(m) => is_square(m, self.nodes.len() as int),
            None => false,
        }
    }
}

impl OptaModel {
    /// The empty model.
    pub fn new() -> (model: Self)
        ensures
            model@ == (ModelView { nodes: Seq::empty(), edges: Seq::empty(), matrix: None }),
    {
        let model = Self { nodes: Vec::new(), edges: Vec::new(), adjacency_matrix: None };
        assert(model@.nodes =~= Seq::empty());
        assert(model@.edges =~= Seq::empty());
        model
    }

    /// Appends a node and discards the adjacency matrix.
    pub fn add_node(&mut self, node: OptaNode)
        ensures
            final(self)@ == (ModelView {
                nodes: old(self)@.nodes.push(node@),
                edges: old(self)@.edges,
                matrix: None,
            }),
    {
        self.nodes.push(node);
        self.adjacency_matrix = None;
        assert(self@.nodes =~= old(self)@.nodes.push(node@));
        assert(self@.edges =~= old(self)@.edges);
    }

    /// Appends an edge and discards the adjacency matrix.
    pub fn add_edge(&mut self, edge: OptaEdge)
        ensures
            final(self)@ == (ModelView {
                nodes: old(self)@.nodes,
                edges: old(self)@.edges.push(edge@),
                matrix: None,
            }),
    {
        self.edges.push(edge);
        self.adjacency_matrix = None;
        assert(self@.nodes =~= old(self)@.nodes);
        assert(self@.edges =~= old(self)@.edges.push(edge@));
    }

    /// The number of nodes.
    pub fn node_count(&self) -> (n: usize)
        ensures
            n == self@.nodes.len(),
    {
        self.nodes.len()
    }

    /// The number of edges.
    pub fn edge_count(&self) -> (n: usize)
        ensures
            n == self@.edges.len(),
    {
        self.edges.len()
    }

    /// The position of the last node that carries `id`.
    pub fn resolve(&self, id: &String) -> (r: Option<usize>)
        ensures
            match r {
                Some(i) => i < self.nodes.len() && last_index_of(self@.ids(), id@) == Some(
                    i as int,
                ),
                None => last_index_of(self@.ids(), id@) is None,
            },
    {
        let mut i: usize = self.nodes.len();
        let ghost ids = self@.ids();
        assert(ids.take(i as int) =~= ids);
        while i > 0
            invariant
                i <= self.nodes.len(),
                ids == self@.ids(),
                last_index_of(ids.take(i as int), id@) == last_index_of(ids, id@),
            decreases i,
        {
            i = i - 1;
            assert(ids.take(i + 1).drop_last() =~= ids.take(i as int));
            if self.nodes[i].id == *id {
                return Some(i);
            }
        }
        None
    }

    /// Rebuilds the adjacency matrix from the nodes and edges as they are.
    pub fn build_adjacency_matrix(&mut self)
        ensures
            final(self)@.nodes == old(self)@.nodes,
            final(self)@.edges == old(self)@.edges,
            final(self)@.matrix == matrix_of(old(self)@.ids(), old(self)@.edges),
            old(self)@.nodes.len() > 0 ==> final(self)@.matrix_usable(),
    {
        let n: usize = self.nodes.len();
        if n == 0 {
            self.adjacency_matrix = None;
            assert(self@.nodes =~= old(self)@.nodes);
            assert(self@.edges =~= old(self)@.edges);
            return;
        }
        let ghost ids = self@.ids();
        let ghost edges = self@.edges;
        let mut rows: Vec<Vec<i64>> = Vec::new();
        let mut r: usize = 0;
        while r < n
            invariant
                r <= n,
                rows.len() == r,
                forall|i: int| 0 <= i < r ==> (#[trigger] rows[i]).len() == n,
                forall|i: int, j: int| 0 <= i < r && 0 <= j < n ==> (#[trigger] rows[i][j]) == 0,
            decreases n - r,
        {
            let mut row: Vec<i64> = Vec::new();
            let mut c: usize = 0;
            while c < n
                invariant
                    c <= n,
                    row.len() == c,
                    forall|j: int| 0 <= j < c ==> row[j] == 0,
                decreases n - c,
            {
                row.push(0);
                c = c + 1;
            }
            rows.push(row);
            r = r + 1;
        }
        let mut k: usize = 0;
        assert(edges.take(0) =~= Seq::empty());
        while k < self.edges.len()
            invariant
                k <= self.edges.len(),
                n == self.nodes.len(),
                ids == self@.ids(),
                edges == self@.edges,
                ids.len() == n,
                rows.len() == n,
                forall|i: int| 0 <= i < n ==> (#[trigger] rows[i]).len() == n,
                forall|i: int, j: int|
                    0 <= i < n && 0 <= j < n ==> (#[trigger] rows[i][j]) == cell(
                        ids,
                        edges.take(k as int),
                        i,
                        j,
                    ),
            decreases self.edges.len() - k,
        {
            let from = self.resolve(&self.edges[k].from);
            let to = self.resolve(&self.edges[k].to);
            let weight: i64 = self.edges[k].weight;
            proof {
                assert(edges.take(k + 1).drop_last() =~= edges.take(k as int));
                assert(edges.take(k + 1).last() == edges[k as int]);
                lemma_last_index_of(ids, edges[k as int].from);
                lemma_last_index_of(ids, edges[k as int].to);
            }
            match (from, to) {
                (Some(fi), Some(ti)) => {
                    let mut row: Vec<i64> = rows[fi].clone();
                    row.set(ti, weight);
                    rows.set(fi, row);
                },
                _ => {},
            }
            k = k + 1;
        }
        proof {
            assert(edges.take(k as int) =~= edges);
            assert(rows_view(rows) =~~= matrix_of(ids, edges)->0);
        }
        self.adjacency_matrix = Some(rows);
        assert(self@.nodes =~= old(self)@.nodes);
        assert(self@.edges =~= old(self)@.edges);
    }

    /// The first node that carries `id`.
    pub fn find_node(&self, id: &str) -> (r: Option<&OptaNode>)
        ensures
            match r {
                Some(node) => match first_index_of(self@.ids(), id@) {
                    Some(i) => *node == self.nodes[i],
                    None => false,
                },
                None => first_index_of(self@.ids(), id@) is None,
            },
    {
        let key: String = id.to_owned();
        match self.position_of(&key) {
            Some(i) => Some(&self.nodes[i]),
            None => None,
        }
    }

    /// The position of the first node that carries `id`.
    pub fn position_of(&self, id: &String) -> (r: Option<usize>)
        ensures
            match r {
                Some(i) => i < self.nodes.len() && first_index_of(self@.ids(), id@) == Some(
                    i as int,
                ),
                None => first_index_of(self@.ids(), id@) is None,
            },
    {
        let ghost ids = self@.ids();
        let mut i: usize = 0;
        while i < self.nodes.len()
            invariant
                i <= self.nodes.len(),
                ids == self@.ids(),
                first_index_of(ids.take(i as int), id@) is None,
            decreases self.nodes.len() - i,
        {
            assert(ids.take(i + 1).drop_last() =~= ids.take(i as int));
            if self.nodes[i].id == *id {
                proof {
                    lemma_first_index_extends(ids, id@, i + 1);
                }
                return Some(i);
            }
            i = i + 1;
        }
        assert(ids.take(i as int) =~= ids);
        None
    }

    /// The first node that carries `id`, for changing it in place.
    pub fn find_node_mut(&mut self, id: &str) -> (r: Option<&mut OptaNode>)
        ensures
            final(self).edges == old(self).edges,
            final(self).adjacency_matrix == old(self).adjacency_matrix,
            match r {
                Some(node) => match first_index_of(old(self)@.ids(), id@) {
                    Some(i) => *node == old(self).nodes[i] && final(self).nodes@ == old(
                        self,
                    ).nodes@.update(i, *final(node)),
                    None => false,
                },
                None => first_index_of(old(self)@.ids(), id@) is None && final(self).nodes == old(
                    self,
                ).nodes,
            },
    {
        let key: String = id.to_owned();
        match self.position_of(&key) {
            Some(i) => Some(&mut self.nodes[i]),
            None => None,
        }
    }
}

/// A first occurrence within a prefix is the first occurrence overall.
pub proof fn lemma_first_index_extends(ids: Seq<Seq<char>>, id: Seq<char>, k: int)
    requires
        0 <= k <= ids.len(),
        first_index_of(ids.take(k), id) is Some,
    ensures
        first_index_of(ids, id) == first_index_of(ids.take(k), id),
    decreases ids.len() - k,
{
    if k < ids.len() {
        assert(ids.take(k + 1).drop_last() =~= ids.take(k));
        lemma_first_index_extends(ids, id, k + 1);
    } else {
        assert(ids.take(k) =~= ids);
    }
}

impl Default for OptaModel {
    fn default() -> (model: Self)
        ensures
            model@ == (ModelView { nodes: Seq::empty(), edges: Seq::empty(), matrix: None }),
    {
        Self::new()
    }
}

} // verus!
