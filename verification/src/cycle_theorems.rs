//! What holds of the depth-first traversal: a cycle that it reports is a
//! cycle of the graph, and it reports one whenever the graph has one.
use vstd::prelude::*;
use crate::anti_patterns::{closed_graph, closed_cycle, distinct, lemma_distinct_contains, count_white, cycles_of, first_cycle, first_cycle_from, graph_of, lemma_count_white_update, lemma_distinct_members, names, node_keys, path_after, path_nodes, patterns_of, pending, search, successors_of, targets_of, AntiPatternConfig, Color};
use crate::model::{first_index_of, lemma_first_index_of, EdgeView, ModelView};

verus! {

/// Whether the graph has an edge from `u` to `v`.
pub open spec fn has_edge(graph: Seq<Seq<int>>, u: int, v: int) -> bool {
    0 <= u < graph.len() && exists|k: int| 0 <= k < graph[u].len() && graph[u][k] == v
}

/// The place after `i` on a round of `n` places.
pub open spec fn next_place(i: int, n: int) -> int {
    if i + 1 < n {
        i + 1
    } else {
        0
    }
}

/// Whether `walk` is a cycle of the graph: it is not empty, each of its nodes
/// has an edge to the next, and the last has one to the first.
pub open spec fn closed_walk(graph: Seq<Seq<int>>, walk: Seq<int>) -> bool {
    walk.len() > 0 && forall|i: int|
        0 <= i < walk.len() ==> has_edge(
            graph,
            #[trigger] walk[i],
            walk[next_place(i, walk.len() as int)],
        )
}

/// Whether a state of the traversal is sound: every node has a colour, the
/// frames of the path lie in the graph, each frame's node was reached over the edge that the frame
/// below looked at last, and every gray node is on the path.
pub open spec fn sound_state(graph: Seq<Seq<int>>, colors: Seq<Color>, path: Seq<(int, int)>) -> bool {
    &&& colors.len() == graph.len()
    &&& forall|i: int|
        0 <= i < path.len() ==> 0 <= (#[trigger] path[i]).0 < graph.len() && path[i].0
            < colors.len() && 0 <= path[i].1 <= graph[path[i].0].len()
    &&& forall|i: int|
        0 <= i < path.len() - 1 ==> (#[trigger] path[i]).1 >= 1 && graph[path[i].0][path[i].1 - 1]
            == path[i + 1].0
    &&& forall|v: int|
        0 <= v < colors.len() && (#[trigger] colors[v]) is Gray ==> path_nodes(path).contains(v)
}

/// Whether no node is gray.
pub open spec fn no_gray(colors: Seq<Color>) -> bool {
    forall|v: int| 0 <= v < colors.len() ==> !((#[trigger] colors[v]) is Gray)
}

/// Whether `start` stands at `p` and the nodes above `p` are those that
/// follow the last occurrence of `start`.
pub open spec fn tail_above(nodes: Seq<int>, start: int, p: int) -> bool {
    0 <= p < nodes.len() && nodes[p] == start && nodes.subrange(p + 1, nodes.len() as int)
        == path_after(nodes, start)
}

/// The nodes after the last occurrence of a node on a path are a tail of the
/// path.
pub proof fn lemma_path_after(nodes: Seq<int>, start: int)
    requires
        nodes.contains(start),
    ensures
        exists|p: int| tail_above(nodes, start, p),
    decreases nodes.len(),
{
    let n = nodes.len() as int;
    if nodes.last() == start {
        assert(nodes.subrange(n, n) =~= Seq::<int>::empty());
        assert(tail_above(nodes, start, n - 1));
    } else {
        let front = nodes.drop_last();
        let at = choose|at: int| 0 <= at < nodes.len() && nodes[at] == start;
        assert(front[at] == start);
        lemma_path_after(front, start);
        let p = choose|p: int| tail_above(front, start, p);
        assert(nodes.subrange(p + 1, n) =~= front.subrange(p + 1, n - 1).push(nodes.last()));
        assert(tail_above(nodes, start, p));
    }
}

/// The cycle that an edge from the tip of a sound path back to a node on the
/// path closes is a cycle of the graph.
pub proof fn lemma_closed_cycle(
    graph: Seq<Seq<int>>,
    colors: Seq<Color>,
    path: Seq<(int, int)>,
    start: int,
)
    requires
        sound_state(graph, colors, path),
        path.len() > 0,
        path_nodes(path).contains(start),
        has_edge(graph, path.last().0, start),
    ensures
        closed_walk(graph, closed_cycle(path, start)),
{
    let nodes = path_nodes(path);
    let n = nodes.len() as int;
    lemma_path_after(nodes, start);
    let p = choose|p: int| tail_above(nodes, start, p);
    let walk = closed_cycle(path, start);
    let m = walk.len() as int;
    assert(m == n - p);
    assert forall|i: int| 0 <= i < m implies #[trigger] walk[i] == path[p + i].0 by {
        if i > 0 {
            assert(walk[i] == nodes.subrange(p + 1, n)[i - 1]);
        }
    }
    assert forall|i: int| 0 <= i < m implies has_edge(
        graph,
        #[trigger] walk[i],
        walk[next_place(i, m)],
    ) by {
        let at = p + i;
        assert(walk[i] == path[at].0);
        if i < m - 1 {
            // A node of the path below its tip leads to the node above it.
            assert(walk[i + 1] == path[at + 1].0);
            assert(graph[path[at].0][path[at].1 - 1] == path[at + 1].0);
        } else {
            // The tip leads back to `start`.
            assert(at == n - 1);
            assert(walk[0] == start);
        }
    }
}

/// Leaving the tip of a sound path, coloured black, gives a sound state.
pub proof fn lemma_pop_sound(graph: Seq<Seq<int>>, colors: Seq<Color>, path: Seq<(int, int)>)
    requires
        sound_state(graph, colors, path),
        path.len() > 0,
    ensures
        sound_state(graph, colors.update(path.last().0, Color::Black), path.drop_last()),
{
    let node = path.last().0;
    let top = path.len() - 1;
    let after = colors.update(node, Color::Black);
    let rest = path.drop_last();
    assert forall|v: int| 0 <= v < after.len() && (#[trigger] after[v]) is Gray implies path_nodes(
        rest,
    ).contains(v) by {
        assert(colors[v] is Gray);
        let at = choose|at: int| 0 <= at < path_nodes(path).len() && path_nodes(path)[at] == v;
        assert(path[at].0 == v);
        assert(at != top);
        assert(path_nodes(rest)[at] == v);
    }
}

/// Passing a successor of the tip of a sound path gives a sound state.
pub proof fn lemma_advance_sound(graph: Seq<Seq<int>>, colors: Seq<Color>, path: Seq<(int, int)>)
    requires
        sound_state(graph, colors, path),
        path.len() > 0,
        path.last().1 < graph[path.last().0].len(),
    ensures
        sound_state(
            graph,
            colors,
            path.drop_last().push((path.last().0, path.last().1 + 1)),
        ),
{
    let advanced = path.drop_last().push((path.last().0, path.last().1 + 1));
    assert(path_nodes(advanced) =~= path_nodes(path));
    assert forall|i: int| 0 <= i < advanced.len() - 1 implies (#[trigger] advanced[i]).1 >= 1
        && graph[advanced[i].0][advanced[i].1 - 1] == advanced[i + 1].0 by {
        assert(advanced[i] == path[i]);
        assert(advanced[i + 1].0 == path[i + 1].0);
    }
}

/// Following the edge from the tip of a sound path to a white successor,
/// which is coloured gray, gives a sound state.
pub proof fn lemma_push_sound(graph: Seq<Seq<int>>, colors: Seq<Color>, path: Seq<(int, int)>)
    requires
        sound_state(graph, colors, path),
        path.len() > 0,
        0 <= path.last().1 < graph[path.last().0].len(),
        0 <= graph[path.last().0][path.last().1] < colors.len(),
    ensures
        sound_state(
            graph,
            colors.update(graph[path.last().0][path.last().1], Color::Gray),
            path.drop_last().push((path.last().0, path.last().1 + 1)).push(
                (graph[path.last().0][path.last().1], 0int),
            ),
        ),
{
    let (node, next) = path.last();
    let successor = graph[node][next];
    let advanced = path.drop_last().push((node, next + 1));
    let after = colors.update(successor, Color::Gray);
    let longer = advanced.push((successor, 0int));
    assert forall|v: int| 0 <= v < after.len() && (#[trigger] after[v]) is Gray implies path_nodes(
        longer,
    ).contains(v) by {
        if v == successor {
            assert(path_nodes(longer)[longer.len() - 1] == v);
        } else {
            assert(colors[v] is Gray);
            let at = choose|at: int| 0 <= at < path_nodes(path).len() && path_nodes(path)[at] == v;
            assert(path_nodes(longer)[at] == v);
        }
    }
    assert forall|i: int| 0 <= i < longer.len() - 1 implies (#[trigger] longer[i]).1 >= 1
        && graph[longer[i].0][longer[i].1 - 1] == longer[i + 1].0 by {
        if i < advanced.len() - 1 {
            assert(longer[i] == path[i]);
            assert(longer[i + 1].0 == path[i + 1].0);
        }
    }
}

/// From a sound state the traversal reports only cycles of the graph, and it
/// leaves no node gray when it reports none.
pub proof fn lemma_search_sound(graph: Seq<Seq<int>>, colors: Seq<Color>, path: Seq<(int, int)>)
    requires
        sound_state(graph, colors, path),
    ensures
        match search(graph, colors, path).cycle {
            Some(cycle) => closed_walk(graph, cycle),
            None => no_gray(search(graph, colors, path).colors),
        },
        search(graph, colors, path).colors.len() == colors.len(),
    decreases count_white(colors), pending(graph, path),
{
    if path.len() == 0 {
        assert forall|v: int| 0 <= v < colors.len() implies !((#[trigger] colors[v]) is Gray) by {
            if colors[v] is Gray {
                let at = choose|at: int|
                    0 <= at < path_nodes(path).len() && path_nodes(path)[at] == v;
            }
        }
    } else {
        let (node, next) = path.last();
        let top = path.len() - 1;
        assert(path[top] == (node, next));
        if next >= graph[node].len() {
            lemma_count_white_update(colors, node, Color::Black);
            lemma_pop_sound(graph, colors, path);
            lemma_search_sound(graph, colors.update(node, Color::Black), path.drop_last());
        } else {
            let successor = graph[node][next];
            let advanced = path.drop_last().push((node, next + 1));
            assert(advanced.drop_last() =~= path.drop_last());
            lemma_advance_sound(graph, colors, path);
            if !(0 <= successor < colors.len()) {
                lemma_search_sound(graph, colors, advanced);
            } else {
                match colors[successor] {
                    Color::Gray => {
                        assert(has_edge(graph, node, successor));
                        lemma_closed_cycle(graph, colors, path, successor);
                    },
                    Color::White => {
                        let longer = advanced.push((successor, 0int));
                        assert(longer.drop_last() =~= advanced);
                        lemma_count_white_update(colors, successor, Color::Gray);
                        lemma_push_sound(graph, colors, path);
                        lemma_search_sound(
                            graph,
                            colors.update(successor, Color::Gray),
                            longer,
                        );
                    },
                    Color::Black => {
                        lemma_search_sound(graph, colors, advanced);
                    },
                }
            }
        }
    }
}

/// The traversals from `root` on report only cycles of the graph, if they
/// start without gray nodes.
pub proof fn lemma_first_cycle_from_sound(graph: Seq<Seq<int>>, colors: Seq<Color>, root: int)
    requires
        colors.len() == graph.len(),
        no_gray(colors),
        0 <= root,
    ensures
        match first_cycle_from(graph, colors, root) {
            Some(cycle) => closed_walk(graph, cycle),
            None => true,
        },
    decreases graph.len() - root,
{
    if root < graph.len() {
        if colors[root] is White {
            let begun = colors.update(root, Color::Gray);
            let path = seq![(root, 0int)];
            assert forall|v: int| 0 <= v < begun.len() && (#[trigger] begun[v]) is Gray implies path_nodes(
                path,
            ).contains(v) by {
                assert(v == root);
                assert(path_nodes(path)[0] == v);
            }
            assert(sound_state(graph, begun, path));
            lemma_search_sound(graph, begun, path);
            let found = search(graph, begun, path);
            if found.cycle is None {
                lemma_first_cycle_from_sound(graph, found.colors, root + 1);
            }
        } else {
            lemma_first_cycle_from_sound(graph, colors, root + 1);
        }
    }
}

/// A cycle that the traversal of a graph reports is a cycle of the graph.
pub proof fn theorem_first_cycle_is_closed(graph: Seq<Seq<int>>)
    ensures
        match first_cycle(graph) {
            Some(cycle) => closed_walk(graph, cycle),
            None => true,
        },
{
    lemma_first_cycle_from_sound(graph, Seq::new(graph.len(), |i: int| Color::White), 0);
}

/// Whether an edge leads from `from` to `to`.
pub open spec fn depends_on(edges: Seq<EdgeView>, from: Seq<char>, to: Seq<char>) -> bool {
    exists|k: int| 0 <= k < edges.len() && edges[k].from == from && edges[k].to == to
}

/// Whether `ids` is a circular dependency: it is not empty, an edge leads
/// from each identifier to the next, and one from the last to the first.
pub open spec fn dependency_cycle(edges: Seq<EdgeView>, ids: Seq<Seq<char>>) -> bool {
    ids.len() > 0 && forall|i: int|
        0 <= i < ids.len() ==> depends_on(
            edges,
            #[trigger] ids[i],
            ids[next_place(i, ids.len() as int)],
        )
}

/// Each target of `id` is the end of an edge from `id`.
pub proof fn lemma_targets_are_edges(edges: Seq<EdgeView>, id: Seq<char>, target: Seq<char>)
    requires
        targets_of(edges, id).contains(target),
    ensures
        depends_on(edges, id, target),
    decreases edges.len(),
{
    if edges.len() > 0 {
        let front = edges.drop_last();
        let all = targets_of(edges, id);
        let at = choose|at: int| 0 <= at < all.len() && all[at] == target;
        if edges.last().from == id && at == all.len() - 1 {
            assert(edges[edges.len() - 1].from == id && edges[edges.len() - 1].to == target);
        } else {
            assert(targets_of(front, id)[at] == target);
            lemma_targets_are_edges(front, id, target);
            let k = choose|k: int| 0 <= k < front.len() && front[k].from == id && front[k].to == target;
            assert(edges[k].from == id && edges[k].to == target);
        }
    }
}

/// An edge of the traversed graph is an edge of the model between two of its
/// nodes.
pub proof fn lemma_graph_edge(model: ModelView, u: int, v: int)
    requires
        has_edge(graph_of(model), u, v),
    ensures
        0 <= u < node_keys(model).len(),
        0 <= v < node_keys(model).len(),
        depends_on(model.edges, node_keys(model)[u], node_keys(model)[v]),
{
    let keys = node_keys(model);
    let graph = graph_of(model);
    let targets = targets_of(model.edges, keys[u]);
    let pick = |target: Seq<char>| first_index_of(node_keys(model), target);
    let k = choose|k: int| 0 <= k < graph[u].len() && graph[u][k] == v;
    assert(graph[u] == successors_of(model, keys[u]));
    assert(targets.filter_map(pick).contains(v));
    targets.lemma_filter_map_contains(pick, v);
    let target = choose|target: Seq<char>| #[trigger] targets.contains(target) && pick(target) == Some(v);
    lemma_first_index_of(keys, target);
    lemma_targets_are_edges(model.edges, keys[u], target);
}

/// A reported cycle is a circular dependency of the model: its identifiers
/// are identifiers of nodes, an edge leads from each to the next, and one
/// from the last to the first.
pub proof fn theorem_reported_cycle_is_real(model: ModelView, config: AntiPatternConfig, j: int)
    requires
        0 <= j < patterns_of(model, config).len(),
        patterns_of(model, config)[j] is Cycle,
    ensures
        dependency_cycle(model.edges, patterns_of(model, config)[j]->Cycle_nodes),
        forall|i: int|
            0 <= i < patterns_of(model, config)[j]->Cycle_nodes.len() ==> model.ids().contains(
                #[trigger] patterns_of(model, config)[j]->Cycle_nodes[i],
            ),
{
    crate::theorems::lemma_cycle_comes_first(model, config, j);
    let graph = graph_of(model);
    let keys = node_keys(model);
    theorem_first_cycle_is_closed(graph);
    let walk = first_cycle(graph)->0;
    let ids = names(keys, walk);
    let n = walk.len() as int;
    assert(patterns_of(model, config)[j]->Cycle_nodes == ids);
    assert forall|i: int| 0 <= i < ids.len() implies depends_on(
        model.edges,
        #[trigger] ids[i],
        ids[next_place(i, ids.len() as int)],
    ) by {
        assert(has_edge(graph, walk[i], walk[next_place(i, n)]));
        lemma_graph_edge(model, walk[i], walk[next_place(i, n)]);
    }
    assert forall|i: int| 0 <= i < ids.len() implies model.ids().contains(#[trigger] ids[i]) by {
        assert(has_edge(graph, walk[i], walk[next_place(i, n)]));
        lemma_distinct_members(model.ids(), walk[i]);
    }
}

/// Whether `v` stands in `done` before the place `i`.
pub open spec fn earlier(done: Seq<int>, i: int, v: int) -> bool {
    exists|j: int| 0 <= j < i && done[j] == v
}

/// Whether `done` lists nodes in an order in which every successor of a node
/// comes before the node.
pub open spec fn ranked(graph: Seq<Seq<int>>, done: Seq<int>) -> bool {
    forall|i: int, k: int|
        0 <= i < done.len() && 0 <= done[i] < graph.len() && 0 <= k < graph[done[i]].len()
            ==> earlier(done, i, #[trigger] graph[done[i]][k])
}

/// Whether `done` lists the black nodes.
pub open spec fn lists_black(colors: Seq<Color>, done: Seq<int>) -> bool {
    forall|v: int| 0 <= v < colors.len() ==> ((#[trigger] colors[v]) is Black <==> done.contains(v))
}

/// Whether the successor `k` of the frame `i` has been dealt with: it is
/// black, or it is the node of the frame above.
pub open spec fn looked_at(
    graph: Seq<Seq<int>>,
    colors: Seq<Color>,
    path: Seq<(int, int)>,
    i: int,
    k: int,
) -> bool {
    let v = graph[path[i].0][k];
    (0 <= v < colors.len() && colors[v] is Black) || (i + 1 < path.len() && k == path[i].1 - 1)
}

/// Whether every successor that a frame has passed has been dealt with.
pub open spec fn explored(graph: Seq<Seq<int>>, colors: Seq<Color>, path: Seq<(int, int)>) -> bool {
    forall|i: int, k: int|
        0 <= i < path.len() && 0 <= k < path[i].1 ==> #[trigger] looked_at(graph, colors, path, i, k)
}

/// The first place of `v` in `done`.
pub open spec fn rank_of(done: Seq<int>, v: int) -> int
    decreases done.len(),
{
    if done.len() == 0 {
        0
    } else if done.drop_last().contains(v) {
        rank_of(done.drop_last(), v)
    } else {
        done.len() - 1
    }
}

/// The first place of a listed node holds the node, and no place before it
/// does.
pub proof fn lemma_rank_of(done: Seq<int>, v: int)
    requires
        done.contains(v),
    ensures
        0 <= rank_of(done, v) < done.len(),
        done[rank_of(done, v)] == v,
        forall|j: int| 0 <= j < rank_of(done, v) ==> done[j] != v,
    decreases done.len(),
{
    let front = done.drop_last();
    if front.contains(v) {
        lemma_rank_of(front, v);
        assert(forall|j: int| 0 <= j < front.len() ==> front[j] == done[j]);
    } else {
        let at = choose|at: int| 0 <= at < done.len() && done[at] == v;
        if at < done.len() - 1 {
            assert(front[at] == v);
        }
        assert forall|j: int| 0 <= j < done.len() - 1 implies done[j] != v by {
            if done[j] == v {
                assert(front[j] == v);
            }
        }
    }
}

/// Along an edge between listed nodes the rank falls.
pub proof fn lemma_rank_falls(graph: Seq<Seq<int>>, done: Seq<int>, u: int, v: int)
    requires
        ranked(graph, done),
        done.contains(u),
        has_edge(graph, u, v),
    ensures
        done.contains(v),
        rank_of(done, v) < rank_of(done, u),
{
    lemma_rank_of(done, u);
    let i = rank_of(done, u);
    let k = choose|k: int| 0 <= k < graph[u].len() && graph[u][k] == v;
    assert(earlier(done, i, graph[done[i]][k]));
    let j = choose|j: int| 0 <= j < i && done[j] == v;
    assert(done[j] == v);
    lemma_rank_of(done, v);
}

/// The rank falls by at least one with every step along a cycle.
proof fn lemma_descent(graph: Seq<Seq<int>>, done: Seq<int>, walk: Seq<int>, i: int)
    requires
        ranked(graph, done),
        closed_walk(graph, walk),
        done.contains(walk[0]),
        0 <= i < walk.len(),
    ensures
        done.contains(walk[i]),
        rank_of(done, walk[i]) <= rank_of(done, walk[0]) - i,
    decreases i,
{
    if i > 0 {
        lemma_descent(graph, done, walk, i - 1);
        assert(has_edge(graph, walk[i - 1], walk[next_place(i - 1, walk.len() as int)]));
        lemma_rank_falls(graph, done, walk[i - 1], walk[i]);
    }
}

/// In a graph with a cycle, no listing with every successor before its node
/// holds all nodes.
pub proof fn lemma_ranked_acyclic(graph: Seq<Seq<int>>, done: Seq<int>, walk: Seq<int>)
    requires
        ranked(graph, done),
        closed_walk(graph, walk),
    ensures
        exists|v: int| 0 <= v < graph.len() && !done.contains(v),
{
    let m = walk.len() as int;
    assert(has_edge(graph, walk[0], walk[next_place(0, m)]));
    if done.contains(walk[0]) {
        lemma_descent(graph, done, walk, m - 1);
        assert(has_edge(graph, walk[m - 1], walk[next_place(m - 1, m)]));
        lemma_rank_falls(graph, done, walk[m - 1], walk[0]);
    }
}

/// From a sound state in which the black nodes are listed with every
/// successor before its node, and every passed successor has been dealt
/// with, a traversal that reports no cycle ends in such a listing of the
/// black nodes, leaves no node gray and colours no node white.
pub proof fn lemma_search_complete(
    graph: Seq<Seq<int>>,
    colors: Seq<Color>,
    path: Seq<(int, int)>,
    done: Seq<int>,
) -> (after: Seq<int>)
    requires
        closed_graph(graph),
        sound_state(graph, colors, path),
        lists_black(colors, done),
        ranked(graph, done),
        explored(graph, colors, path),
    ensures
        search(graph, colors, path).cycle is None ==> {
            let last = search(graph, colors, path).colors;
            &&& last.len() == colors.len()
            &&& no_gray(last)
            &&& lists_black(last, after)
            &&& ranked(graph, after)
            &&& forall|v: int|
                0 <= v < last.len() && (#[trigger] last[v]) is White ==> colors[v] is White
        },
    decreases count_white(colors), pending(graph, path),
{
    lemma_search_sound(graph, colors, path);
    if path.len() == 0 {
        done
    } else {
        let (node, next) = path.last();
        let top = path.len() - 1;
        assert(path[top] == (node, next));
        if next >= graph[node].len() {
            let after_colors = colors.update(node, Color::Black);
            let rest = path.drop_last();
            let listed = done.push(node);
            lemma_count_white_update(colors, node, Color::Black);
            lemma_pop_sound(graph, colors, path);
            assert forall|v: int| 0 <= v < after_colors.len() implies ((
            #[trigger] after_colors[v]) is Black <==> listed.contains(v)) by {
                if v == node {
                    assert(listed[done.len() as int] == v);
                } else if colors[v] is Black {
                    let at = choose|at: int| 0 <= at < done.len() && done[at] == v;
                    assert(listed[at] == v);
                } else if listed.contains(v) {
                    let at = choose|at: int| 0 <= at < listed.len() && listed[at] == v;
                    assert(done[at] == v);
                }
            }
            assert forall|i: int, k: int|
                0 <= i < listed.len() && 0 <= listed[i] < graph.len() && 0 <= k
                    < graph[listed[i]].len() implies earlier(
                listed,
                i,
                #[trigger] graph[listed[i]][k],
            ) by {
                let v = graph[listed[i]][k];
                if i < done.len() {
                    assert(earlier(done, i, graph[done[i]][k]));
                    let j = choose|j: int| 0 <= j < i && done[j] == v;
                    assert(listed[j] == v);
                } else {
                    assert(looked_at(graph, colors, path, top, k));
                    assert(colors[v] is Black);
                    let j = choose|j: int| 0 <= j < done.len() && done[j] == v;
                    assert(listed[j] == v);
                }
            }
            assert forall|i: int, k: int| 0 <= i < rest.len() && 0 <= k < rest[i].1 implies #[trigger] looked_at(
                graph,
                after_colors,
                rest,
                i,
                k,
            ) by {
                assert(rest[i] == path[i]);
                assert(looked_at(graph, colors, path, i, k));
                if i + 1 == rest.len() && k == path[i].1 - 1 {
                    assert(graph[path[i].0][path[i].1 - 1] == path[i + 1].0);
                }
            }
            let after = lemma_search_complete(graph, after_colors, rest, listed);
            after
        } else {
            let successor = graph[node][next];
            let advanced = path.drop_last().push((node, next + 1));
            assert(advanced.drop_last() =~= path.drop_last());
            lemma_advance_sound(graph, colors, path);
            assert(0 <= successor < colors.len());
            match colors[successor] {
                Color::Gray => done,
                Color::White => {
                    let after_colors = colors.update(successor, Color::Gray);
                    let longer = advanced.push((successor, 0int));
                    assert(longer.drop_last() =~= advanced);
                    lemma_count_white_update(colors, successor, Color::Gray);
                    lemma_push_sound(graph, colors, path);
                    assert forall|i: int, k: int|
                        0 <= i < longer.len() && 0 <= k < longer[i].1 implies #[trigger] looked_at(
                        graph,
                        after_colors,
                        longer,
                        i,
                        k,
                    ) by {
                        if i < top {
                            assert(longer[i] == path[i]);
                            assert(looked_at(graph, colors, path, i, k));
                        } else if i == top && k < next {
                            assert(looked_at(graph, colors, path, i, k));
                        }
                    }
                    let after = lemma_search_complete(graph, after_colors, longer, done);
                    after
                },
                Color::Black => {
                    assert forall|i: int, k: int|
                        0 <= i < advanced.len() && 0 <= k < advanced[i].1 implies #[trigger] looked_at(
                        graph,
                        colors,
                        advanced,
                        i,
                        k,
                    ) by {
                        if i < top {
                            assert(advanced[i] == path[i]);
                            assert(looked_at(graph, colors, path, i, k));
                        } else if k < next {
                            assert(looked_at(graph, colors, path, i, k));
                        }
                    }
                    let after = lemma_search_complete(graph, colors, advanced, done);
                    after
                },
            }
        }
    }
}

/// The traversals from `root` on report a cycle if the graph has one, given
/// that the nodes before `root` are black and listed with every successor
/// before its node.
pub proof fn lemma_first_cycle_from_complete(
    graph: Seq<Seq<int>>,
    colors: Seq<Color>,
    root: int,
    done: Seq<int>,
    walk: Seq<int>,
)
    requires
        closed_graph(graph),
        colors.len() == graph.len(),
        no_gray(colors),
        lists_black(colors, done),
        ranked(graph, done),
        0 <= root,
        forall|v: int| 0 <= v < root && v < colors.len() ==> (#[trigger] colors[v]) is Black,
        closed_walk(graph, walk),
    ensures
        first_cycle_from(graph, colors, root) is Some,
    decreases graph.len() - root,
{
    if root >= graph.len() {
        lemma_ranked_acyclic(graph, done, walk);
        let v = choose|v: int| 0 <= v < graph.len() && !done.contains(v);
        assert(colors[v] is Black);
    } else if colors[root] is White {
        let begun = colors.update(root, Color::Gray);
        let path = seq![(root, 0int)];
        assert forall|v: int| 0 <= v < begun.len() && (#[trigger] begun[v]) is Gray implies path_nodes(
            path,
        ).contains(v) by {
            assert(v == root);
            assert(path_nodes(path)[0] == v);
        }
        assert(sound_state(graph, begun, path));
        assert forall|v: int| 0 <= v < begun.len() implies ((#[trigger] begun[v]) is Black
            <==> done.contains(v)) by {
            assert(colors[v] is Black <==> done.contains(v));
        }
        let after = lemma_search_complete(graph, begun, path, done);
        let found = search(graph, begun, path);
        if found.cycle is None {
            assert forall|v: int| 0 <= v < root + 1 && v < found.colors.len() implies (
            #[trigger] found.colors[v]) is Black by {
                if found.colors[v] is White {
                    assert(begun[v] is White);
                    assert(colors[v] is Black);
                }
            }
            lemma_first_cycle_from_complete(graph, found.colors, root + 1, after, walk);
        }
    } else {
        assert(colors[root] is Black);
        lemma_first_cycle_from_complete(graph, colors, root + 1, done, walk);
    }
}

/// The traversal of a graph with a cycle reports a cycle.
pub proof fn theorem_cycle_is_found(graph: Seq<Seq<int>>, walk: Seq<int>)
    requires
        closed_graph(graph),
        closed_walk(graph, walk),
    ensures
        first_cycle(graph) is Some,
{
    let colors = Seq::new(graph.len(), |i: int| Color::White);
    let done = Seq::<int>::empty();
    lemma_first_cycle_from_complete(graph, colors, 0, done, walk);
}

/// The end of an edge from `id` is a target of `id`.
pub proof fn lemma_edge_is_target(edges: Seq<EdgeView>, k: int)
    requires
        0 <= k < edges.len(),
    ensures
        targets_of(edges, edges[k].from).contains(edges[k].to),
    decreases edges.len(),
{
    let id = edges[k].from;
    let front = edges.drop_last();
    let all = targets_of(edges, id);
    if k == edges.len() - 1 {
        assert(all[all.len() - 1] == edges[k].to);
    } else {
        assert(front[k] == edges[k]);
        lemma_edge_is_target(front, k);
        let at = choose|at: int|
            0 <= at < targets_of(front, id).len() && targets_of(front, id)[at] == edges[k].to;
        assert(all[at] == edges[k].to);
    }
}

/// Every successor in the traversed graph of a model is a node of it.
pub proof fn lemma_graph_closed(model: ModelView)
    ensures
        closed_graph(graph_of(model)),
{
    let graph = graph_of(model);
    let keys = node_keys(model);
    let pick = |target: Seq<char>| first_index_of(node_keys(model), target);
    assert forall|i: int, j: int| 0 <= i < graph.len() && 0 <= j < graph[i].len() implies 0
        <= #[trigger] graph[i][j] < graph.len() by {
        let targets = targets_of(model.edges, keys[i]);
        let v = graph[i][j];
        assert(graph[i] == successors_of(model, keys[i]));
        assert(targets.filter_map(pick).contains(v));
        targets.lemma_filter_map_contains(pick, v);
        let target = choose|target: Seq<char>| #[trigger]
            targets.contains(target) && pick(target) == Some(v);
        lemma_first_index_of(keys, target);
    }
}

/// An edge of the model between two of its nodes is an edge of the traversed
/// graph.
pub proof fn lemma_model_edge(model: ModelView, from: Seq<char>, to: Seq<char>)
    requires
        depends_on(model.edges, from, to),
        model.ids().contains(from),
        model.ids().contains(to),
    ensures
        first_index_of(node_keys(model), from) is Some,
        first_index_of(node_keys(model), to) is Some,
        has_edge(
            graph_of(model),
            first_index_of(node_keys(model), from)->0,
            first_index_of(node_keys(model), to)->0,
        ),
{
    let keys = node_keys(model);
    let ids = model.ids();
    let pick = |target: Seq<char>| first_index_of(node_keys(model), target);
    let a = choose|a: int| 0 <= a < ids.len() && ids[a] == from;
    let b = choose|b: int| 0 <= b < ids.len() && ids[b] == to;
    lemma_distinct_contains(ids, a);
    lemma_distinct_contains(ids, b);
    lemma_first_index_of(keys, from);
    lemma_first_index_of(keys, to);
    let u = first_index_of(keys, from)->0;
    let v = first_index_of(keys, to)->0;
    let k = choose|k: int|
        0 <= k < model.edges.len() && model.edges[k].from == from && model.edges[k].to == to;
    lemma_edge_is_target(model.edges, k);
    let targets = targets_of(model.edges, from);
    let at = choose|at: int| 0 <= at < targets.len() && targets[at] == to;
    crate::theorems::lemma_filter_map_keeps(targets, pick, at);
    let successors = graph_of(model)[u];
    assert(successors == successors_of(model, keys[u]));
    let place = choose|place: int| 0 <= place < successors.len() && successors[place] == v;
    assert(successors[place] == v);
}

/// A model with a circular dependency among its nodes gets a cycle reported,
/// as its first pattern.
pub proof fn theorem_dependency_cycle_reported(
    model: ModelView,
    config: AntiPatternConfig,
    ids: Seq<Seq<char>>,
)
    requires
        dependency_cycle(model.edges, ids),
        forall|i: int| 0 <= i < ids.len() ==> model.ids().contains(#[trigger] ids[i]),
    ensures
        patterns_of(model, config).len() > 0,
        patterns_of(model, config)[0] is Cycle,
{
    let keys = node_keys(model);
    let graph = graph_of(model);
    let n = ids.len() as int;
    let walk = Seq::new(ids.len(), |i: int| first_index_of(node_keys(model), ids[i])->0);
    assert forall|i: int| 0 <= i < walk.len() implies has_edge(
        graph,
        #[trigger] walk[i],
        walk[next_place(i, walk.len() as int)],
    ) by {
        assert(depends_on(model.edges, ids[i], ids[next_place(i, n)]));
        lemma_model_edge(model, ids[i], ids[next_place(i, n)]);
    }
    lemma_graph_closed(model);
    theorem_cycle_is_found(graph, walk);
    assert(model.ids().contains(ids[0]));
    assert(model.nodes.len() > 0);
    assert(patterns_of(model, config)[0] == cycles_of(model)[0]);
}

/// Whether the path of a state is simple: no node stands on it twice, and
/// every node on it is gray.
pub open spec fn simple_path(colors: Seq<Color>, path: Seq<(int, int)>) -> bool {
    &&& path_nodes(path).no_duplicates()
    &&& forall|i: int|
        0 <= i < path.len() ==> 0 <= (#[trigger] path[i]).0 < colors.len() && colors[path[i].0]
            is Gray
}

/// The cycle that an edge from the tip of a simple path back to a node on
/// the path closes holds no node twice.
pub proof fn lemma_closed_cycle_simple(path: Seq<(int, int)>, start: int)
    requires
        path_nodes(path).no_duplicates(),
        path_nodes(path).contains(start),
    ensures
        closed_cycle(path, start).no_duplicates(),
{
    let nodes = path_nodes(path);
    let n = nodes.len() as int;
    lemma_path_after(nodes, start);
    let p = choose|p: int| tail_above(nodes, start, p);
    let walk = closed_cycle(path, start);
    assert forall|i: int| 0 <= i < walk.len() implies #[trigger] walk[i] == nodes[p + i] by {
        if i > 0 {
            assert(walk[i] == nodes.subrange(p + 1, n)[i - 1]);
        }
    }
    assert forall|i: int, j: int|
        0 <= i < walk.len() && 0 <= j < walk.len() && i != j implies walk[i] != walk[j] by {
        assert(walk[i] == nodes[p + i]);
        assert(walk[j] == nodes[p + j]);
    }
}

/// From a sound state with a simple path the traversal reports only cycles
/// that hold no node twice.
pub proof fn lemma_search_simple(graph: Seq<Seq<int>>, colors: Seq<Color>, path: Seq<(int, int)>)
    requires
        sound_state(graph, colors, path),
        simple_path(colors, path),
    ensures
        match search(graph, colors, path).cycle {
            Some(cycle) => cycle.no_duplicates(),
            None => true,
        },
    decreases count_white(colors), pending(graph, path),
{
    if path.len() > 0 {
        let (node, next) = path.last();
        let top = path.len() - 1;
        let nodes = path_nodes(path);
        assert(path[top] == (node, next));
        if next >= graph[node].len() {
            let after = colors.update(node, Color::Black);
            let rest = path.drop_last();
            lemma_count_white_update(colors, node, Color::Black);
            lemma_pop_sound(graph, colors, path);
            assert forall|i: int, j: int|
                0 <= i < rest.len() && 0 <= j < rest.len() && i != j implies path_nodes(rest)[i]
                != path_nodes(rest)[j] by {
                assert(path_nodes(rest)[i] == nodes[i] && path_nodes(rest)[j] == nodes[j]);
            }
            assert forall|i: int| 0 <= i < rest.len() implies 0 <= (#[trigger] rest[i]).0
                < after.len() && after[rest[i].0] is Gray by {
                assert(rest[i] == path[i]);
                assert(nodes[i] != nodes[top]);
            }
            lemma_search_simple(graph, after, rest);
        } else {
            let successor = graph[node][next];
            let advanced = path.drop_last().push((node, next + 1));
            assert(advanced.drop_last() =~= path.drop_last());
            assert(path_nodes(advanced) =~= nodes);
            lemma_advance_sound(graph, colors, path);
            assert forall|i: int| 0 <= i < advanced.len() implies 0 <= (#[trigger] advanced[i]).0
                < colors.len() && colors[advanced[i].0] is Gray by {
                assert(advanced[i].0 == path[i].0);
            }
            if !(0 <= successor < colors.len()) {
                lemma_search_simple(graph, colors, advanced);
            } else {
                match colors[successor] {
                    Color::Gray => {
                        lemma_closed_cycle_simple(path, successor);
                    },
                    Color::White => {
                        let after = colors.update(successor, Color::Gray);
                        let longer = advanced.push((successor, 0int));
                        assert(longer.drop_last() =~= advanced);
                        lemma_count_white_update(colors, successor, Color::Gray);
                        lemma_push_sound(graph, colors, path);
                        assert forall|i: int| 0 <= i < longer.len() implies 0 <= (
                        #[trigger] longer[i]).0 < after.len() && after[longer[i].0] is Gray by {
                            if i < top + 1 {
                                assert(longer[i].0 == path[i].0);
                            }
                        }
                        assert forall|i: int, j: int|
                            0 <= i < longer.len() && 0 <= j < longer.len() && i != j implies path_nodes(
                            longer,
                        )[i] != path_nodes(longer)[j] by {
                            if i <= top && j <= top {
                                assert(path_nodes(longer)[i] == nodes[i]);
                                assert(path_nodes(longer)[j] == nodes[j]);
                            } else if i <= top {
                                assert(longer[i].0 == path[i].0);
                                assert(colors[path[i].0] is Gray);
                            } else {
                                assert(longer[j].0 == path[j].0);
                                assert(colors[path[j].0] is Gray);
                            }
                        }
                        lemma_search_simple(graph, after, longer);
                    },
                    Color::Black => {
                        lemma_search_simple(graph, colors, advanced);
                    },
                }
            }
        }
    }
}

/// The traversals from `root` on report only cycles that hold no node
/// twice, if they start without gray nodes.
pub proof fn lemma_first_cycle_from_simple(graph: Seq<Seq<int>>, colors: Seq<Color>, root: int)
    requires
        colors.len() == graph.len(),
        no_gray(colors),
        0 <= root,
    ensures
        match first_cycle_from(graph, colors, root) {
            Some(cycle) => cycle.no_duplicates(),
            None => true,
        },
    decreases graph.len() - root,
{
    if root < graph.len() {
        if colors[root] is White {
            let begun = colors.update(root, Color::Gray);
            let path = seq![(root, 0int)];
            assert forall|v: int| 0 <= v < begun.len() && (#[trigger] begun[v]) is Gray implies path_nodes(
                path,
            ).contains(v) by {
                assert(v == root);
                assert(path_nodes(path)[0] == v);
            }
            assert(sound_state(graph, begun, path));
            assert(simple_path(begun, path));
            lemma_search_sound(graph, begun, path);
            lemma_search_simple(graph, begun, path);
            let found = search(graph, begun, path);
            if found.cycle is None {
                lemma_first_cycle_from_simple(graph, found.colors, root + 1);
            }
        } else {
            lemma_first_cycle_from_simple(graph, colors, root + 1);
        }
    }
}

/// A cycle that the traversal of a graph reports holds no node twice.
pub proof fn theorem_first_cycle_is_simple(graph: Seq<Seq<int>>)
    ensures
        match first_cycle(graph) {
            Some(cycle) => cycle.no_duplicates(),
            None => true,
        },
{
    lemma_first_cycle_from_simple(graph, Seq::new(graph.len(), |i: int| Color::White), 0);
}

/// No identifier stands twice in `distinct(ids)`.
pub proof fn lemma_distinct_no_duplicates(ids: Seq<Seq<char>>)
    ensures
        distinct(ids).no_duplicates(),
    decreases ids.len(),
{
    if ids.len() > 0 {
        lemma_distinct_no_duplicates(ids.drop_last());
        let front = distinct(ids.drop_last());
        let all = distinct(ids);
        assert forall|i: int, j: int|
            0 <= i < all.len() && 0 <= j < all.len() && i != j implies all[i] != all[j] by {
            if i < front.len() && j < front.len() {
                assert(all[i] == front[i] && all[j] == front[j]);
            } else if i < front.len() {
                assert(all[i] == front[i]);
            } else {
                assert(all[j] == front[j]);
            }
        }
    }
}

/// A reported cycle holds no identifier twice: it is a path of the graph that
/// an edge closes.
pub proof fn theorem_reported_cycle_is_simple(model: ModelView, config: AntiPatternConfig, j: int)
    requires
        0 <= j < patterns_of(model, config).len(),
        patterns_of(model, config)[j] is Cycle,
    ensures
        patterns_of(model, config)[j]->Cycle_nodes.no_duplicates(),
{
    crate::theorems::lemma_cycle_comes_first(model, config, j);
    let graph = graph_of(model);
    let keys = node_keys(model);
    theorem_first_cycle_is_closed(graph);
    theorem_first_cycle_is_simple(graph);
    lemma_distinct_no_duplicates(model.ids());
    let walk = first_cycle(graph)->0;
    let ids = names(keys, walk);
    let n = walk.len() as int;
    assert(patterns_of(model, config)[j]->Cycle_nodes == ids);
    assert forall|a: int, b: int| 0 <= a < ids.len() && 0 <= b < ids.len() && a != b implies ids[a]
        != ids[b] by {
        assert(has_edge(graph, walk[a], walk[next_place(a, n)]));
        assert(has_edge(graph, walk[b], walk[next_place(b, n)]));
        assert(walk[a] != walk[b]);
    }
}

} // verus!
