use optacore::fixed::{fx_add, fx_clamp, fx_div, fx_max, fx_mul, fx_sqrt, fx_sub, SCALE};
use optacore::model::{NodeType, OptaEdge, OptaModel, OptaNode};
use optacore::optimizer::{matrix_ready, OptaOptimizer};
use optacore::error::OptaError;

fn node(id: &str, name: &str) -> OptaNode {
    OptaNode::new(id.to_string(), name.to_string(), NodeType::Container)
}

fn pair(weight: Option<i64>) -> OptaModel {
    let mut model = OptaModel::new();
    model.add_node(node("a", "A"));
    model.add_node(node("b", "B"));
    if let Some(weight) = weight {
        model.add_edge(OptaEdge::new("a".to_string(), "b".to_string()).with_weight(weight));
    }
    model.build_adjacency_matrix();
    model
}

fn positions(model: &OptaModel) -> Vec<(i64, i64)> {
    model.nodes.iter().map(|n| n.get_position().unwrap()).collect()
}

#[test]
fn test_optimizer_creation() {
    let optimizer = OptaOptimizer::new(50, 50_000);
    assert_eq!(optimizer.iterations, 50);
    assert_eq!(optimizer.learning_rate, 50_000);
}

#[test]
fn test_optimize_empty_model() {
    let optimizer = OptaOptimizer::default();
    let mut model = OptaModel::new();

    let result = optimizer.optimize_layout(&mut model);
    assert!(result.is_err());
}

#[test]
fn test_optimize_no_adjacency_matrix() {
    let optimizer = OptaOptimizer::default();
    let mut model = OptaModel::new();
    model.add_node(node("a", "A"));

    let result = optimizer.optimize_layout(&mut model);
    assert!(result.is_err());
}

#[test]
fn test_optimize_simple_graph() {
    let optimizer = OptaOptimizer::new(10, 100_000);
    let mut model = OptaModel::new();

    model.add_node(node("a", "A"));
    model.add_node(node("b", "B"));
    model.add_edge(OptaEdge::new("a".to_string(), "b".to_string()));

    model.build_adjacency_matrix();

    let result = optimizer.optimize_layout(&mut model);
    assert!(result.is_ok());

    let pos_a = model.find_node("a").unwrap().get_position();
    let pos_b = model.find_node("b").unwrap().get_position();

    assert!(pos_a.is_some());
    assert!(pos_b.is_some());
}

#[test]
fn errors_name_their_cause_and_leave_the_model_alone() {
    let optimizer = OptaOptimizer::default();
    let mut empty = OptaModel::new();
    assert_eq!(optimizer.optimize_layout(&mut empty), Err(OptaError::EmptyModel));
    assert_eq!(optimizer.optimize_from(&mut empty, &vec![]), Err(OptaError::EmptyModel));

    let mut unbuilt = OptaModel::new();
    unbuilt.add_node(node("a", "A"));
    assert_eq!(optimizer.optimize_layout(&mut unbuilt), Err(OptaError::MatrixNotBuilt));
    assert_eq!(optimizer.optimize_from(&mut unbuilt, &vec![(1, 1)]), Err(OptaError::MatrixNotBuilt));
    assert!(unbuilt.nodes[0].get_position().is_none());

    // A matrix that was built for fewer nodes is as good as none.
    let mut stale = OptaModel::new();
    stale.add_node(node("a", "A"));
    stale.build_adjacency_matrix();
    let matrix = stale.adjacency_matrix.clone();
    stale.add_node(node("b", "B"));
    assert!(stale.adjacency_matrix.is_none());
    stale.adjacency_matrix = matrix;
    assert!(!matrix_ready(&stale));
    assert_eq!(optimizer.optimize_layout(&mut stale), Err(OptaError::MatrixNotBuilt));
    assert!(stale.nodes.iter().all(|n| n.get_position().is_none()));
}

#[test]
fn defaults_of_the_layout() {
    let optimizer = OptaOptimizer::default();
    assert_eq!(
        optimizer,
        OptaOptimizer { iterations: 100, learning_rate: 100_000, area: 1_000_000_000, k: 50_000_000 }
    );
    let wide = OptaOptimizer::new(40, 120_000).with_area(2_000_000_000);
    assert_eq!(wide.area, 2_000_000_000);
    // sqrt(2000 / 40) = sqrt(50) = 7.071067...
    assert_eq!(wide.k, 7_071_067);
    assert_eq!(OptaOptimizer::new(0, 1).with_area(5).k, i64::MAX);
    assert_eq!(OptaOptimizer::new(0, 1).with_area(0).k, 0);
    assert_eq!(OptaOptimizer::new(3, 1).with_area(-7).k, 0);
}

#[test]
fn one_step_of_repulsion() {
    // Two nodes at distance 5 (before softening), ideal distance 5, no edge:
    // each is pushed away from the other by k*k/d2 along the unit vector.
    let optimizer = OptaOptimizer { iterations: 1, learning_rate: SCALE, area: 1_000_000_000, k: 5_000_000 };
    let mut model = pair(None);
    let start = vec![(10_000_000, 10_000_000), (13_000_000, 14_000_000)];
    assert_eq!(optimizer.optimize_from(&mut model, &start), Ok(()));
    assert_eq!(positions(&model), vec![(9_400_360, 9_200_480), (13_599_640, 14_799_520)]);
}

#[test]
fn an_edge_pulls_its_source_only() {
    let optimizer = OptaOptimizer { iterations: 1, learning_rate: SCALE, area: 1_000_000_000, k: 5_000_000 };
    let mut model = pair(Some(SCALE));
    let start = vec![(10_000_000, 10_000_000), (13_000_000, 14_000_000)];
    assert_eq!(optimizer.optimize_from(&mut model, &start), Ok(()));
    assert_eq!(positions(&model), vec![(12_400_958, 13_201_278), (13_599_640, 14_799_520)]);

    // A weight that is not positive does not pull.
    let mut model = pair(Some(-SCALE));
    assert_eq!(optimizer.optimize_from(&mut model, &start), Ok(()));
    assert_eq!(positions(&model), vec![(9_400_360, 9_200_480), (13_599_640, 14_799_520)]);
}

#[test]
fn temperature_falls_linearly() {
    // The second of two iterations moves by half the displacement.
    let optimizer = OptaOptimizer { iterations: 2, learning_rate: SCALE, area: 1_000_000_000, k: 5_000_000 };
    let mut model = pair(None);
    let start = vec![(10_000_000, 10_000_000), (13_000_000, 14_000_000)];
    assert_eq!(optimizer.optimize_from(&mut model, &start), Ok(()));
    assert_eq!(positions(&model), vec![(9_247_294, 8_996_392), (13_752_706, 15_003_608)]);
}

#[test]
fn positions_are_clamped_into_the_square() {
    let optimizer = OptaOptimizer { iterations: 1, learning_rate: SCALE, area: 1_000_000_000, k: 50_000_000 };
    let mut model = pair(None);
    let start = vec![(1_000_000, 1_000_000), (2_000_000, 30_000_000)];
    assert_eq!(optimizer.optimize_from(&mut model, &start), Ok(()));
    // sqrt(1000) = 31.622776...
    assert_eq!(positions(&model), vec![(897_680, 0), (2_102_320, 31_622_776)]);
}

#[test]
fn coincident_nodes_do_not_move_apart() {
    let optimizer = OptaOptimizer { iterations: 1, learning_rate: SCALE, area: 1_000_000_000, k: 5_000_000 };
    let mut model = pair(None);
    let start = vec![(10_000_000, 10_000_000), (10_000_000, 10_000_000)];
    assert_eq!(optimizer.optimize_from(&mut model, &start), Ok(()));
    assert_eq!(positions(&model), start);
}

#[test]
fn without_iterations_the_start_is_the_layout() {
    let optimizer = OptaOptimizer::new(0, SCALE);
    let mut model = pair(None);
    assert_eq!(optimizer.optimize_from(&mut model, &vec![(7, 8)]), Ok(()));
    assert_eq!(positions(&model), vec![(7, 8), (0, 0)]);
}

#[test]
fn layout_stays_within_the_square() {
    for area in [1i64, 16_000_000, 1_000_000_000, 2_500_000_000] {
        let optimizer = OptaOptimizer::new(7, 300_000).with_area(area);
        let bound = fx_sqrt(area);
        let mut model = OptaModel::new();
        for i in 0..6 {
            model.add_node(node(&format!("n{}", i), "N"));
        }
        for i in 0..6 {
            model.add_edge(OptaEdge::new(format!("n{}", i), format!("n{}", (i + 1) % 6)));
        }
        model.build_adjacency_matrix();
        assert_eq!(optimizer.optimize_layout(&mut model), Ok(()));
        for (x, y) in positions(&model) {
            assert!(0 <= x && x <= bound, "x = {} with bound {}", x, bound);
            assert!(0 <= y && y <= bound, "y = {} with bound {}", y, bound);
        }
    }
}

#[test]
fn random_start_differs_between_nodes() {
    // With no iterations the layout is the random start: sixty-four
    // coordinates below 2^20 that are all equal would not be a draw.
    let optimizer = OptaOptimizer::new(0, SCALE).with_area(1_099_511_627_776);
    let mut model = OptaModel::new();
    for i in 0..32 {
        model.add_node(node(&format!("n{}", i), "N"));
    }
    model.build_adjacency_matrix();
    assert_eq!(optimizer.optimize_layout(&mut model), Ok(()));
    let all = positions(&model);
    assert!(all.iter().any(|p| *p != all[0]));
    assert!(all.iter().all(|p| 0 <= p.0 && p.0 < fx_sqrt(1_099_511_627_776) && 0 <= p.1));
}

#[test]
fn fixed_point_arithmetic() {
    assert_eq!(fx_add(1_500_000, 2_250_000), 3_750_000);
    assert_eq!(fx_add(i64::MAX, 1), i64::MAX);
    assert_eq!(fx_sub(i64::MIN, 1), i64::MIN);
    assert_eq!(fx_sub(1, 3), -2);
    assert_eq!(fx_mul(1_500_000, 1_500_000), 2_250_000);
    assert_eq!(fx_mul(-1, 1), 0);
    assert_eq!(fx_mul(i64::MAX, i64::MAX), i64::MAX);
    assert_eq!(fx_mul(i64::MIN, i64::MAX), i64::MIN);
    assert_eq!(fx_div(SCALE, 3 * SCALE), 333_333);
    assert_eq!(fx_div(-SCALE, 3 * SCALE), -333_333);
    assert_eq!(fx_div(SCALE, -3 * SCALE), -333_333);
    assert_eq!(fx_div(5, 0), i64::MAX);
    assert_eq!(fx_div(-5, 0), i64::MIN);
    assert_eq!(fx_div(0, 0), 0);
    assert_eq!(fx_sqrt(2 * SCALE), 1_414_213);
    assert_eq!(fx_sqrt(16 * SCALE), 4 * SCALE);
    assert_eq!(fx_sqrt(1), 1_000);
    assert_eq!(fx_sqrt(0), 0);
    assert_eq!(fx_sqrt(-4 * SCALE), 0);
    assert_eq!(fx_sqrt(i64::MAX), 3_037_000_499_976);
    assert_eq!(fx_clamp(5, 0, 3), 3);
    assert_eq!(fx_clamp(-5, 0, 3), 0);
    assert_eq!(fx_clamp(2, 0, 3), 2);
    assert_eq!(fx_clamp(2, 0, -1), 0);
    assert_eq!(fx_max(2, 3), 3);
    assert_eq!(fx_max(3, -3), 3);
}

#[test]
fn failures_come_before_the_area_is_looked_at() {
    let flat = OptaOptimizer::new(10, 100_000).with_area(0);
    let mut empty = OptaModel::new();
    assert_eq!(flat.optimize_layout(&mut empty), Err(OptaError::EmptyModel));
    let mut unbuilt = OptaModel::new();
    unbuilt.add_node(node("a", "A"));
    assert_eq!(flat.optimize_layout(&mut unbuilt), Err(OptaError::MatrixNotBuilt));
    let negative = OptaOptimizer::new(10, 100_000).with_area(-5);
    assert_eq!(negative.optimize_layout(&mut unbuilt), Err(OptaError::MatrixNotBuilt));
    assert!(unbuilt.nodes[0].get_position().is_none());
}
