//! What holds of every graph: which nodes the detector is bound to report.
use vstd::prelude::*;
use crate::anti_patterns::{adjacency_of, bottleneck_at, bottleneck_candidates, bottlenecks_of, cycles_of, destinations, in_degree, isolated_at, isolated_of, lemma_distinct_contains, lemma_severity_at_least_one, out_degree, over_coupling_at, over_couplings_of, patterns_of, severity_of, sources, AntiPatternConfig, PatternView};
use crate::fixed::SCALE;
use crate::model::ModelView;

verus! {

/// What `f` makes of an element of `s` stands in `s.filter_map(f)`.
pub proof fn lemma_filter_map_keeps<A, B>(s: Seq<A>, f: spec_fn(A) -> Option<B>, j: int)
    requires
        0 <= j < s.len(),
        f(s[j]) is Some,
    ensures
        s.filter_map(f).contains(f(s[j])->0),
    decreases s.len(),
{
    let rest = s.drop_last();
    if j == s.len() - 1 {
        let all = s.filter_map(f);
        assert(all[all.len() - 1] == f(s[j])->0);
    } else {
        lemma_filter_map_keeps(rest, f, j);
        let kept = rest.filter_map(f);
        let at = choose|at: int| 0 <= at < kept.len() && kept[at] == f(s[j])->0;
        assert(s.filter_map(f)[at] == f(s[j])->0);
    }
}

/// An element of one of the four parts is an element of the whole.
proof fn lemma_part_contains(
    a: Seq<PatternView>,
    b: Seq<PatternView>,
    c: Seq<PatternView>,
    d: Seq<PatternView>,
    pattern: PatternView,
)
    requires
        a.contains(pattern) || b.contains(pattern) || c.contains(pattern) || d.contains(pattern),
    ensures
        (a + b + c + d).contains(pattern),
{
    let all = a + b + c + d;
    if a.contains(pattern) {
        let i = choose|i: int| 0 <= i < a.len() && a[i] == pattern;
        assert(all[i] == pattern);
    } else if b.contains(pattern) {
        let i = choose|i: int| 0 <= i < b.len() && b[i] == pattern;
        assert(all[a.len() + i] == pattern);
    } else if c.contains(pattern) {
        let i = choose|i: int| 0 <= i < c.len() && c[i] == pattern;
        assert(all[a.len() + b.len() + i] == pattern);
    } else {
        let i = choose|i: int| 0 <= i < d.len() && d[i] == pattern;
        assert(all[a.len() + b.len() + c.len() + i] == pattern);
    }
}

/// A node whose in-degree reaches the bottleneck threshold is reported as a
/// bottleneck, with its in-degree and with the severity of that degree; for
/// a threshold of at least one the severity is at least one.
pub proof fn theorem_bottleneck_reported(model: ModelView, config: AntiPatternConfig, i: int)
    requires
        0 <= i < model.nodes.len(),
        in_degree(model.edges, model.nodes[i].id) >= config.bottleneck_threshold,
    ensures
        patterns_of(model, config).contains(
            PatternView::Bottleneck {
                node_id: model.nodes[i].id,
                in_degree: in_degree(model.edges, model.nodes[i].id),
                severity: severity_of(
                    in_degree(model.edges, model.nodes[i].id),
                    config.bottleneck_threshold as nat,
                ),
            },
        ),
        config.bottleneck_threshold >= 1 ==> severity_of(
            in_degree(model.edges, model.nodes[i].id),
            config.bottleneck_threshold as nat,
        ) >= SCALE,
{
    let id = model.nodes[i].id;
    let threshold = config.bottleneck_threshold as nat;
    let degree = in_degree(model.edges, id);
    let all = model.ids() + sources(model.edges) + destinations(model.edges);
    let candidates = bottleneck_candidates(model);
    let pick = |id: Seq<char>| bottleneck_at(model.edges, threshold, id);
    assert(all[i] == id);
    lemma_distinct_contains(all, i);
    let at = choose|at: int| 0 <= at < candidates.len() && candidates[at] == id;
    lemma_filter_map_keeps(candidates, pick, at);
    let pattern = pick(id)->0;
    assert(bottlenecks_of(model, threshold).contains(pattern));
    lemma_part_contains(
        cycles_of(model),
        bottlenecks_of(model, threshold),
        over_couplings_of(model, config.over_coupling_threshold as nat),
        if config.detect_isolated {
            isolated_of(model)
        } else {
            Seq::empty()
        },
        pattern,
    );
    if threshold >= 1 {
        lemma_severity_at_least_one(degree, threshold);
    }
}

/// A node whose out-degree reaches the over-coupling threshold is reported
/// as over-coupled, with its out-degree and with the severity of that
/// degree; for a threshold of at least one the severity is at least one.
pub proof fn theorem_over_coupling_reported(model: ModelView, config: AntiPatternConfig, i: int)
    requires
        0 <= i < model.nodes.len(),
        out_degree(model.edges, model.nodes[i].id) >= config.over_coupling_threshold,
    ensures
        patterns_of(model, config).contains(
            PatternView::OverCoupling {
                node_id: model.nodes[i].id,
                out_degree: out_degree(model.edges, model.nodes[i].id),
                severity: severity_of(
                    out_degree(model.edges, model.nodes[i].id),
                    config.over_coupling_threshold as nat,
                ),
            },
        ),
        config.over_coupling_threshold >= 1 ==> severity_of(
            out_degree(model.edges, model.nodes[i].id),
            config.over_coupling_threshold as nat,
        ) >= SCALE,
{
    let id = model.nodes[i].id;
    let threshold = config.over_coupling_threshold as nat;
    let degree = out_degree(model.edges, id);
    let all = model.ids() + sources(model.edges);
    let keys = adjacency_of(model).keys;
    let pick = |id: Seq<char>| over_coupling_at(model.edges, threshold, id);
    assert(all[i] == id);
    lemma_distinct_contains(all, i);
    let at = choose|at: int| 0 <= at < keys.len() && keys[at] == id;
    lemma_filter_map_keeps(keys, pick, at);
    let pattern = pick(id)->0;
    assert(over_couplings_of(model, threshold).contains(pattern));
    lemma_part_contains(
        cycles_of(model),
        bottlenecks_of(model, config.bottleneck_threshold as nat),
        over_couplings_of(model, threshold),
        if config.detect_isolated {
            isolated_of(model)
        } else {
            Seq::empty()
        },
        pattern,
    );
    if threshold >= 1 {
        lemma_severity_at_least_one(degree, threshold);
    }
}

/// A node without incoming and outgoing edges is reported as isolated when
/// isolated nodes are asked for.
pub proof fn theorem_isolated_reported(model: ModelView, config: AntiPatternConfig, i: int)
    requires
        0 <= i < model.nodes.len(),
        in_degree(model.edges, model.nodes[i].id) == 0,
        out_degree(model.edges, model.nodes[i].id) == 0,
        config.detect_isolated,
    ensures
        patterns_of(model, config).contains(
            PatternView::IsolatedComponent { node_id: model.nodes[i].id },
        ),
{
    let id = model.nodes[i].id;
    let ids = model.ids();
    let pick = |id: Seq<char>| isolated_at(model.edges, id);
    assert(ids[i] == id);
    lemma_filter_map_keeps(ids, pick, i);
    let pattern = pick(id)->0;
    assert(isolated_of(model).contains(pattern));
    lemma_part_contains(
        cycles_of(model),
        bottlenecks_of(model, config.bottleneck_threshold as nat),
        over_couplings_of(model, config.over_coupling_threshold as nat),
        isolated_of(model),
        pattern,
    );
}

/// No node is reported as isolated when isolated nodes are not asked for.
pub proof fn theorem_isolated_only_on_request(model: ModelView, config: AntiPatternConfig, j: int)
    requires
        !config.detect_isolated,
        0 <= j < patterns_of(model, config).len(),
    ensures
        !(patterns_of(model, config)[j] is IsolatedComponent),
{
    let a = cycles_of(model);
    let b = bottlenecks_of(model, config.bottleneck_threshold as nat);
    let c = over_couplings_of(model, config.over_coupling_threshold as nat);
    let pattern = patterns_of(model, config)[j];
    assert(model.nodes.len() > 0);
    assert(patterns_of(model, config) =~= a + b + c);
    if j < a.len() {
        assert(pattern == a[j]);
    } else if j < a.len() + b.len() {
        assert(pattern == b[j - a.len()]);
        assert(b.contains(pattern));
        bottleneck_candidates(model).lemma_filter_map_contains(
            |id: Seq<char>| bottleneck_at(model.edges, config.bottleneck_threshold as nat, id),
            pattern,
        );
    } else {
        assert(pattern == c[j - a.len() - b.len()]);
        assert(c.contains(pattern));
        adjacency_of(model).keys.lemma_filter_map_contains(
            |id: Seq<char>| over_coupling_at(model.edges, config.over_coupling_threshold as nat, id),
            pattern,
        );
    }
}

/// A graph without nodes has no anti-patterns.
pub proof fn theorem_no_nodes_no_patterns(model: ModelView, config: AntiPatternConfig)
    requires
        model.nodes.len() == 0,
    ensures
        patterns_of(model, config).len() == 0,
{
}

/// A reported cycle is the first pattern, and the one that the traversal
/// found.
pub proof fn lemma_cycle_comes_first(model: ModelView, config: AntiPatternConfig, j: int)
    requires
        0 <= j < patterns_of(model, config).len(),
        patterns_of(model, config)[j] is Cycle,
    ensures
        j == 0,
        cycles_of(model).len() == 1,
        patterns_of(model, config)[j] == cycles_of(model)[0],
{
    let a = cycles_of(model);
    let b = bottlenecks_of(model, config.bottleneck_threshold as nat);
    let c = over_couplings_of(model, config.over_coupling_threshold as nat);
    let d = if config.detect_isolated {
        isolated_of(model)
    } else {
        Seq::empty()
    };
    let pattern = patterns_of(model, config)[j];
    assert(patterns_of(model, config) =~= a + b + c + d);
    if j < a.len() {
        assert(pattern == a[j]);
    } else if j < a.len() + b.len() {
        assert(pattern == b[j - a.len()]);
        assert(b.contains(pattern));
        bottleneck_candidates(model).lemma_filter_map_contains(
            |id: Seq<char>| bottleneck_at(model.edges, config.bottleneck_threshold as nat, id),
            pattern,
        );
    } else if j < a.len() + b.len() + c.len() {
        assert(pattern == c[j - a.len() - b.len()]);
        assert(c.contains(pattern));
        adjacency_of(model).keys.lemma_filter_map_contains(
            |id: Seq<char>| over_coupling_at(model.edges, config.over_coupling_threshold as nat, id),
            pattern,
        );
    } else {
        assert(pattern == d[j - a.len() - b.len() - c.len()]);
        assert(d.contains(pattern));
        model.ids().lemma_filter_map_contains(
            |id: Seq<char>| isolated_at(model.edges, id),
            pattern,
        );
    }
}

/// At most one cycle is reported, and it comes first.
pub proof fn theorem_single_cycle(model: ModelView, config: AntiPatternConfig, j: int)
    requires
        0 < j < patterns_of(model, config).len(),
    ensures
        !(patterns_of(model, config)[j] is Cycle),
{
    if patterns_of(model, config)[j] is Cycle {
        lemma_cycle_comes_first(model, config, j);
    }
}

} // verus!
