//! Force-directed layout: nodes repel each other, edges pull their source
//! toward their target, and a temperature that falls linearly to zero scales
//! every move.  All quantities are fixed-point scalars counting millionths.
use vstd::prelude::*;
use rand::Rng;
use crate::fixed::{add_spec, clamp_spec, div_spec, fx_add, fx_clamp, fx_div, fx_mul, fx_sqrt, fx_sub, mul_spec, quot, sqrt_spec, sub_spec, HUNDREDTH, SCALE};
use crate::model::{is_square, rows_view, ModelView, NodeView, OptaModel};
use crate::error::OptaError;

verus! {

/// The parameters of a layout.
#[derive(Debug, Clone, Copy, PartialEq, Eq, Structural)]
pub struct OptaOptimizer {
    /// The number of iterations.
    pub iterations: usize,
    /// The temperature of the first iteration.
    pub learning_rate: i64,
    /// The area of the square that the nodes are kept in.
    pub area: i64,
    /// The distance at which two nodes are at ease.
    pub k: i64,
}

/// A point of the plane.
pub type Point = (int, int);

/// The ideal distance for an area and a number of iterations: the square root
/// of their quotient.  Without iterations the quotient of a positive area is
/// unbounded, and so is the distance: it is the largest scalar.
pub open spec fn ideal_distance(area: int, iterations: nat) -> int {
    if iterations == 0 {
        if area > 0 {
            i64::MAX as int
        } else {
            0
        }
    } else {
        sqrt_spec(quot(area, iterations as int))
    }
}

/// The displacement of a node at `a` after the node at `b` has acted on it:
/// `b` pushes `a` away with the force `k * k / d2`, where `d2` is the squared
/// distance plus one hundredth, and, if the edge from `a` to `b` has a
/// positive weight, pulls it with the force `d * d / k * weight`, where `d`
/// is the square root of `d2`.
pub open spec fn pushed(acc: Point, k: int, a: Point, b: Point, weight: int) -> Point {
    let dx = sub_spec(a.0, b.0);
    let dy = sub_spec(a.1, b.1);
    let d2 = add_spec(add_spec(mul_spec(dx, dx), mul_spec(dy, dy)), HUNDREDTH as int);
    let d = sqrt_spec(d2);
    let ux = div_spec(dx, d);
    let uy = div_spec(dy, d);
    let repulsion = div_spec(mul_spec(k, k), d2);
    let x = add_spec(acc.0, mul_spec(ux, repulsion));
    let y = add_spec(acc.1, mul_spec(uy, repulsion));
    if weight > 0 {
        let attraction = mul_spec(div_spec(mul_spec(d, d), k), weight);
        (sub_spec(x, mul_spec(ux, attraction)), sub_spec(y, mul_spec(uy, attraction)))
    } else {
        (x, y)
    }
}

/// The displacement of node `i` after the nodes before `upto` have acted on
/// it, each but `i` itself, in order.  `row` holds the weights of the edges
/// from `i`.
pub open spec fn displacement(k: int, points: Seq<Point>, row: Seq<int>, i: int, upto: int) -> Point
    decreases upto,
{
    if upto <= 0 {
        (0, 0)
    } else {
        let acc = displacement(k, points, row, i, upto - 1);
        if upto - 1 == i {
            acc
        } else {
            pushed(acc, k, points[i], points[upto - 1], row[upto - 1])
        }
    }
}

/// The temperature of iteration `t` of `n`: the learning rate times
/// `1 - t / n`.
pub open spec fn temperature(learning_rate: int, t: nat, n: nat) -> int {
    mul_spec(learning_rate, SCALE - (t * SCALE) / (n as int))
}

/// Where a point lies after a move by `force * temperature`, kept within
/// `[0, bound]` in both coordinates.
pub open spec fn moved(point: Point, force: Point, temperature: int, bound: int) -> Point {
    (
        clamp_spec(add_spec(point.0, mul_spec(force.0, temperature)), 0, bound),
        clamp_spec(add_spec(point.1, mul_spec(force.1, temperature)), 0, bound),
    )
}

/// The points after one iteration: every node moves by its displacement,
/// computed from the points before the iteration.
pub open spec fn step(k: int, temperature: int, bound: int, points: Seq<Point>, matrix: Seq<Seq<int>>) -> Seq<
    Point,
> {
    Seq::new(
        points.len(),
        |i: int| moved(points[i], displacement(k, points, matrix[i], i, points.len() as int), temperature, bound),
    )
}

impl OptaOptimizer {
    /// The side of the square that the nodes are kept in: the square root of
    /// the area.
    pub open spec fn bound(self) -> int {
        sqrt_spec(self.area as int)
    }

    /// The points after the iterations `t`, `t + 1`, ... of the layout.
    pub open spec fn simulate(self, points: Seq<Point>, matrix: Seq<Seq<int>>, t: nat) -> Seq<Point>
        decreases self.iterations - t,
    {
        if t >= self.iterations {
            points
        } else {
            self.simulate(
                step(
                    self.k as int,
                    temperature(self.learning_rate as int, t, self.iterations as nat),
                    self.bound(),
                    points,
                    matrix,
                ),
                matrix,
                t + 1,
            )
        }
    }
}

/// Whether every point lies within `[0, bound]` in both coordinates.
pub open spec fn within(points: Seq<Point>, bound: int) -> bool {
    forall|i: int|
        0 <= i < points.len() ==> 0 <= (#[trigger] points[i]).0 <= bound && 0 <= points[i].1
            <= bound
}

/// The points of a vector as mathematical values.
pub open spec fn points_view(points: Seq<(i64, i64)>) -> Seq<Point> {
    Seq::new(points.len(), |i: int| (points[i].0 as int, points[i].1 as int))
}

/// The start of a layout of `n` nodes from the given points: the first `n`
/// of them, and the origin for each node that has none.
pub open spec fn start_points(given: Seq<Point>, n: nat) -> Seq<Point> {
    Seq::new(n, |i: int| if i < given.len() { given[i] } else { (0int, 0int) })
}

/// The nodes with their positions replaced by the given points.
pub open spec fn placed(nodes: Seq<NodeView>, points: Seq<Point>) -> Seq<NodeView> {
    Seq::new(nodes.len(), |i: int| NodeView { position: Some(points[i]), ..nodes[i] })
}

/// The side of the square of a positive area is the square root of the area,
/// rounded down to a millionth.
pub proof fn theorem_bound_is_root(optimizer: OptaOptimizer)
    requires
        optimizer.area > 0,
    ensures
        optimizer.bound() > 0,
        optimizer.bound() * optimizer.bound() <= optimizer.area * SCALE,
        optimizer.area * SCALE < (optimizer.bound() + 1) * (optimizer.bound() + 1),
{
    crate::fixed::lemma_isqrt_bounds(optimizer.area * SCALE);
    let root = optimizer.bound();
    assert(root != 0) by (nonlinear_arith)
        requires
            optimizer.area * SCALE < (root + 1) * (root + 1),
            optimizer.area * SCALE >= 1,
    ;
}

/// Whether a node has a position within `[0, bound]` in both coordinates.
pub open spec fn placed_within(node: NodeView, bound: int) -> bool {
    match node.position {
        Some(point) => 0 <= point.0 <= bound && 0 <= point.1 <= bound,
        None => false,
    }
}

/// After at least one iteration every point lies within the bound, and so it
/// does after none if the layout starts within it.
pub proof fn lemma_simulate_within(
    optimizer: OptaOptimizer,
    points: Seq<Point>,
    matrix: Seq<Seq<int>>,
    t: nat,
)
    requires
        t < optimizer.iterations || within(points, optimizer.bound()),
    ensures
        within(optimizer.simulate(points, matrix, t), optimizer.bound()),
        optimizer.simulate(points, matrix, t).len() == points.len(),
    decreases optimizer.iterations - t,
{
    if t < optimizer.iterations {
        let next = step(
            optimizer.k as int,
            temperature(optimizer.learning_rate as int, t, optimizer.iterations as nat),
            optimizer.bound(),
            points,
            matrix,
        );
        if optimizer.area > 0 {
            crate::fixed::lemma_isqrt_bounds(optimizer.area * SCALE);
        }
        assert(within(next, optimizer.bound()));
        lemma_simulate_within(optimizer, next, matrix, t + 1);
    }
}

/// `rand::Rng::random_range` on the generator of the current thread
/// (`rand::rng`), for the range `0..bound`: some scalar of that range.
/// Nothing is said about which.
#[verifier::external_body]
fn random_below(bound: i64) -> (r: i64)
    requires
        bound > 0,
    ensures
        0 <= r < bound,
{
    rand::rng().random_range(0..bound)
}

fn push_on(acc: (i64, i64), k: i64, a: (i64, i64), b: (i64, i64), weight: i64) -> (r: (i64, i64))
    ensures
        (r.0 as int, r.1 as int) == pushed(
            (acc.0 as int, acc.1 as int),
            k as int,
            (a.0 as int, a.1 as int),
            (b.0 as int, b.1 as int),
            weight as int,
        ),
{
    let dx: i64 = fx_sub(a.0, b.0);
    let dy: i64 = fx_sub(a.1, b.1);
    let d2: i64 = fx_add(fx_add(fx_mul(dx, dx), fx_mul(dy, dy)), HUNDREDTH);
    let d: i64 = fx_sqrt(d2);
    let ux: i64 = fx_div(dx, d);
    let uy: i64 = fx_div(dy, d);
    let repulsion: i64 = fx_div(fx_mul(k, k), d2);
    let x: i64 = fx_add(acc.0, fx_mul(ux, repulsion));
    let y: i64 = fx_add(acc.1, fx_mul(uy, repulsion));
    if weight > 0 {
        let attraction: i64 = fx_mul(fx_div(fx_mul(d, d), k), weight);
        (fx_sub(x, fx_mul(ux, attraction)), fx_sub(y, fx_mul(uy, attraction)))
    } else {
        (x, y)
    }
}

impl OptaOptimizer {
    /// A layout of `iterations` iterations in an area of one thousand, with
    /// an ideal distance of fifty.
    pub fn new(iterations: usize, learning_rate: i64) -> (optimizer: Self)
        ensures
            optimizer == (OptaOptimizer {
                iterations,
                learning_rate,
                area: 1_000_000_000,
                k: 50_000_000,
            }),
    {
        Self { iterations, learning_rate, area: 1_000_000_000, k: 50_000_000 }
    }

    /// The same layout in another area; the ideal distance follows the area.
    pub fn with_area(self, area: i64) -> (optimizer: Self)
        ensures
            optimizer == (OptaOptimizer {
                area,
                k: ideal_distance(area as int, self.iterations as nat) as i64,
                ..self
            }),
            optimizer.k == ideal_distance(area as int, self.iterations as nat),
    {
        let k: i64 = if self.iterations == 0 {
            if area > 0 {
                i64::MAX
            } else {
                0
            }
        } else if area >= 0 {
            let q: u128 = (area as u128) / (self.iterations as u128);
            assert(q <= area) by (nonlinear_arith)
                requires
                    q == (area as u128) / (self.iterations as u128),
                    self.iterations > 0,
                    area >= 0,
            ;
            fx_sqrt(q as i64)
        } else {
            0
        };
        proof {
            if self.iterations > 0 && area < 0 {
                let n = self.iterations as int;
                let q = (-(area as int)) / n;
                assert(q >= 0) by (nonlinear_arith)
                    requires
                        q == (-(area as int)) / n,
                        n > 0,
                        area < 0,
                ;
            }
        }
        Self { iterations: self.iterations, learning_rate: self.learning_rate, area, k }
    }

    /// The displacements of all nodes at the given points.
    fn compute_forces(&self, points: &Vec<(i64, i64)>, matrix: &Vec<Vec<i64>>) -> (forces: Vec<
        (i64, i64),
    >)
        requires
            is_square(rows_view(*matrix), points.len() as int),
        ensures
            forces.len() == points.len(),
            forall|i: int|
                0 <= i < points.len() ==> ((#[trigger] forces[i]).0 as int, forces[i].1 as int)
                    == displacement(
                    self.k as int,
                    points_view(points@),
                    rows_view(*matrix)[i],
                    i,
                    points.len() as int,
                ),
    {
        let n: usize = points.len();
        let ghost ps = points_view(points@);
        let ghost rows = rows_view(*matrix);
        let mut forces: Vec<(i64, i64)> = Vec::new();
        let mut i: usize = 0;
        while i < n
            invariant
                i <= n,
                n == points.len(),
                ps == points_view(points@),
                rows == rows_view(*matrix),
                is_square(rows, n as int),
                forces.len() == i,
                forall|a: int|
                    0 <= a < i ==> ((#[trigger] forces[a]).0 as int, forces[a].1 as int)
                        == displacement(self.k as int, ps, rows[a], a, n as int),
            decreases n - i,
        {
            let mut acc: (i64, i64) = (0, 0);
            let mut j: usize = 0;
            assert(rows[i as int].len() == n);
            assert(matrix[i as int].len() == n);
            while j < n
                invariant
                    j <= n,
                    i < n,
                    n == points.len(),
                    ps == points_view(points@),
                    rows == rows_view(*matrix),
                    matrix.len() == n,
                    matrix[i as int].len() == n,
                    (acc.0 as int, acc.1 as int) == displacement(
                        self.k as int,
                        ps,
                        rows[i as int],
                        i as int,
                        j as int,
                    ),
                decreases n - j,
            {
                if j != i {
                    acc = push_on(acc, self.k, points[i], points[j], matrix[i][j]);
                    assert(rows[i as int][j as int] == matrix[i as int][j as int]);
                }
                j = j + 1;
            }
            forces.push(acc);
            i = i + 1;
        }
        forces
    }

    /// The temperature of iteration `t`.
    fn cooled(&self, t: usize) -> (temp: i64)
        requires
            t < self.iterations,
        ensures
            temp == temperature(self.learning_rate as int, t as nat, self.iterations as nat),
    {
        let scaled: u128 = (t as u128) * 1_000_000;
        let n: u128 = self.iterations as u128;
        let fraction: u128 = scaled / n;
        assert(fraction <= 1_000_000) by (nonlinear_arith)
            requires
                fraction == scaled / n,
                scaled < n * 1_000_000,
                n > 0,
        ;
        let cooling: i64 = 1_000_000 - (fraction as i64);
        fx_mul(self.learning_rate, cooling)
    }

    /// One iteration: every point moves by its displacement times the
    /// temperature and is then kept within the bound.
    fn advance(&self, points: &Vec<(i64, i64)>, matrix: &Vec<Vec<i64>>, temp: i64, bound: i64) -> (next:
        Vec<(i64, i64)>)
        requires
            is_square(rows_view(*matrix), points.len() as int),
        ensures
            next.len() == points.len(),
            points_view(next@) == step(
                self.k as int,
                temp as int,
                bound as int,
                points_view(points@),
                rows_view(*matrix),
            ),
    {
        let forces = self.compute_forces(points, matrix);
        let ghost wanted = step(
            self.k as int,
            temp as int,
            bound as int,
            points_view(points@),
            rows_view(*matrix),
        );
        let mut next: Vec<(i64, i64)> = Vec::new();
        let mut i: usize = 0;
        while i < points.len()
            invariant
                i <= points.len(),
                forces.len() == points.len(),
                next.len() == i,
                wanted == step(
                    self.k as int,
                    temp as int,
                    bound as int,
                    points_view(points@),
                    rows_view(*matrix),
                ),
                forall|a: int|
                    0 <= a < points.len() ==> ((#[trigger] forces[a]).0 as int, forces[a].1 as int)
                        == displacement(
                        self.k as int,
                        points_view(points@),
                        rows_view(*matrix)[a],
                        a,
                        points.len() as int,
                    ),
                forall|a: int|
                    0 <= a < i ==> ((#[trigger] next[a]).0 as int, next[a].1 as int) == wanted[a],
            decreases points.len() - i,
        {
            let p: (i64, i64) = points[i];
            let f: (i64, i64) = forces[i];
            let x: i64 = fx_clamp(fx_add(p.0, fx_mul(f.0, temp)), 0, bound);
            let y: i64 = fx_clamp(fx_add(p.1, fx_mul(f.1, temp)), 0, bound);
            next.push((x, y));
            assert(points_view(points@)[i as int] == (p.0 as int, p.1 as int));
            i = i + 1;
        }
        assert(points_view(next@) =~= wanted);
        next
    }
}

/// Whether the model's matrix is present and has one row and one column per
/// node.
pub fn matrix_ready(model: &OptaModel) -> (ready: bool)
    ensures
        ready == model@.matrix_usable(),
{
    let n: usize = model.nodes.len();
    match &model.adjacency_matrix {
        None => false,
        Some(rows) => {
            if rows.len() != n {
                return false;
            }
            let mut i: usize = 0;
            while i < n
                invariant
                    i <= n,
                    n == model.nodes.len(),
                    rows.len() == n,
                    model.adjacency_matrix == Some(*rows),
                    forall|a: int| 0 <= a < i ==> (#[trigger] rows_view(*rows)[a]).len() == n,
                decreases n - i,
            {
                if rows[i].len() != n {
                    assert(rows_view(*rows)[i as int].len() != n);
                    return false;
                }
                i = i + 1;
            }
            true
        },
    }
}

fn apply_positions_to_model(model: &mut OptaModel, points: &Vec<(i64, i64)>)
    requires
        points.len() == old(model).nodes.len(),
    ensures
        final(model)@ == (ModelView {
            nodes: placed(old(model)@.nodes, points_view(points@)),
            ..old(model)@
        }),
{
    let n: usize = model.nodes.len();
    let mut i: usize = 0;
    while i < n
        invariant
            i <= n,
            n == points.len(),
            model.nodes.len() == n,
            model.edges == old(model).edges,
            model.adjacency_matrix == old(model).adjacency_matrix,
            forall|a: int|
                0 <= a < i ==> (#[trigger] model.nodes[a])@ == (NodeView {
                    position: Some((points[a].0 as int, points[a].1 as int)),
                    ..old(model).nodes[a]@
                }),
            forall|a: int| i <= a < n ==> #[trigger] model.nodes[a] == old(model).nodes[a],
        decreases n - i,
    {
        let p: (i64, i64) = points[i];
        model.nodes[i].set_position(p.0, p.1);
        i = i + 1;
    }
    assert(model@.nodes =~= placed(old(model)@.nodes, points_view(points@)));
    assert(model@.edges =~= old(model)@.edges);
}

impl OptaOptimizer {
    /// Random points for `count` nodes, each coordinate uniform in
    /// `[0, bound)`.
    fn initialize_positions(&self, count: usize) -> (points: Vec<(i64, i64)>)
        requires
            self.area > 0,
        ensures
            points.len() == count,
            within(points_view(points@), self.bound()),
    {
        let bound: i64 = fx_sqrt(self.area);
        proof {
            crate::fixed::lemma_isqrt_bounds(self.area * SCALE);
            let root = crate::fixed::isqrt(self.area * SCALE);
            assert(root != 0) by (nonlinear_arith)
                requires
                    self.area * SCALE < (root + 1) * (root + 1),
                    self.area * SCALE >= 1,
            ;
        }
        let mut points: Vec<(i64, i64)> = Vec::new();
        let mut i: usize = 0;
        while i < count
            invariant
                i <= count,
                bound > 0,
                bound == self.bound(),
                points.len() == i,
                within(points_view(points@), self.bound()),
            decreases count - i,
        {
            let x: i64 = random_below(bound);
            let y: i64 = random_below(bound);
            let ghost prior = points_view(points@);
            points.push((x, y));
            assert(points_view(points@) =~= prior.push((x as int, y as int)));
            i = i + 1;
        }
        points
    }

    /// Lays the model out from the given start: `start[i]` is where node `i`
    /// begins, the origin where `start` is too short.  Fails, and leaves the
    /// model as it is, for a model without nodes, and for one whose matrix is
    /// absent or does not fit its nodes.  Else every node is placed where the
    /// simulation ends.
    pub fn optimize_from(&self, model: &mut OptaModel, start: &Vec<(i64, i64)>) -> (r: Result<
        (),
        OptaError,
    >)
        ensures
            old(model)@.nodes.len() == 0 ==> r == Err::<(), OptaError>(OptaError::EmptyModel),
            old(model)@.nodes.len() > 0 && !old(model)@.matrix_usable() ==> r == Err::<
                (),
                OptaError,
            >(OptaError::MatrixNotBuilt),
            old(model)@.nodes.len() > 0 && old(model)@.matrix_usable() ==> r is Ok,
            r is Err ==> *final(model) == *old(model),
            r is Ok ==> final(model)@ == (ModelView {
                nodes: placed(
                    old(model)@.nodes,
                    self.simulate(
                        start_points(points_view(start@), old(model)@.nodes.len()),
                        old(model)@.matrix->0,
                        0,
                    ),
                ),
                ..old(model)@
            }),
            r is Ok && self.iterations > 0 ==> forall|i: int|
                0 <= i < final(model)@.nodes.len() ==> placed_within(
                    #[trigger] final(model)@.nodes[i],
                    self.bound(),
                ),
    {
        let n: usize = model.node_count();
        if n == 0 {
            return Err(OptaError::EmptyModel);
        }
        if !matrix_ready(model) {
            return Err(OptaError::MatrixNotBuilt);
        }
        let mut points: Vec<(i64, i64)> = Vec::new();
        let mut i: usize = 0;
        while i < n
            invariant
                i <= n,
                points.len() == i,
                forall|a: int|
                    0 <= a < i ==> ((#[trigger] points[a]).0 as int, points[a].1 as int)
                        == start_points(points_view(start@), n as nat)[a],
            decreases n - i,
        {
            if i < start.len() {
                points.push(start[i]);
            } else {
                points.push((0, 0));
            }
            i = i + 1;
        }
        let ghost begin = start_points(points_view(start@), n as nat);
        assert(points_view(points@) =~= begin);
        let bound: i64 = fx_sqrt(self.area);
        let mut t: usize = 0;
        match &model.adjacency_matrix {
            Some(rows) => {
                let ghost matrix = rows_view(*rows);
                while t < self.iterations
                    invariant
                        t <= self.iterations,
                        points.len() == n,
                        bound == self.bound(),
                        matrix == rows_view(*rows),
                        is_square(matrix, n as int),
                        self.simulate(points_view(points@), matrix, t as nat) == self.simulate(
                            begin,
                            matrix,
                            0,
                        ),
                    decreases self.iterations - t,
                {
                    let temp: i64 = self.cooled(t);
                    points = self.advance(&points, rows, temp, bound);
                    t = t + 1;
                }
            },
            None => {},
        }
        apply_positions_to_model(model, &points);
        proof {
            if self.iterations > 0 {
                lemma_simulate_within(*self, begin, old(model)@.matrix->0, 0);
            }
        }
        Ok(())
    }

    /// Lays the model out from random points.  Fails, and leaves the model as
    /// it is, for a model without nodes, and for one whose matrix is absent
    /// or does not fit its nodes.  Else every node is placed where the
    /// simulation ends, which is within the square of the layout's area; the
    /// area must then be positive, for there is no point to draw in a square
    /// without extent.
    pub fn optimize_layout(&self, model: &mut OptaModel) -> (r: Result<(), OptaError>)
        requires
            old(model)@.nodes.len() > 0 && old(model)@.matrix_usable() ==> self.area > 0,
        ensures
            old(model)@.nodes.len() == 0 ==> r == Err::<(), OptaError>(OptaError::EmptyModel),
            old(model)@.nodes.len() > 0 && !old(model)@.matrix_usable() ==> r == Err::<
                (),
                OptaError,
            >(OptaError::MatrixNotBuilt),
            old(model)@.nodes.len() > 0 && old(model)@.matrix_usable() ==> r is Ok,
            r is Err ==> *final(model) == *old(model),
            r is Ok ==> forall|i: int|
                0 <= i < final(model)@.nodes.len() ==> placed_within(
                    #[trigger] final(model)@.nodes[i],
                    self.bound(),
                ),
            r is Ok ==> exists|start: Seq<Point>|
                {
                    &&& start.len() == old(model)@.nodes.len()
                    &&& within(start, self.bound())
                    &&& #[trigger] within(
                        self.simulate(start, old(model)@.matrix->0, 0),
                        self.bound(),
                    )
                    &&& final(model)@ == (ModelView {
                        nodes: placed(
                            old(model)@.nodes,
                            self.simulate(start, old(model)@.matrix->0, 0),
                        ),
                        ..old(model)@
                    })
                },
    {
        let n: usize = model.node_count();
        if n == 0 {
            return Err(OptaError::EmptyModel);
        }
        if !matrix_ready(model) {
            return Err(OptaError::MatrixNotBuilt);
        }
        let start = self.initialize_positions(n);
        let r = self.optimize_from(model, &start);
        proof {
            let begin = points_view(start@);
            assert(start_points(begin, n as nat) =~= begin);
            lemma_simulate_within(*self, begin, old(model)@.matrix->0, 0);
        }
        r
    }
}

impl Default for OptaOptimizer {
    /// A hundred iterations from a learning rate of one tenth.
    fn default() -> (optimizer: Self)
        ensures
            optimizer == (OptaOptimizer {
                iterations: 100,
                learning_rate: 100_000,
                area: 1_000_000_000,
                k: 50_000_000,
            }),
    {
        Self::new(100, 100_000)
    }
}

} // verus!
