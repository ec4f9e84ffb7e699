//! The force-directed layout: the children start on a circle and push one
//! another apart for a fixed number of passes.
//!
//! All of it is integer arithmetic. The circle is placed with Bhaskara's
//! rational approximation of the sine, which is exact at every quarter turn
//! and within two thousandths elsewhere.

use vstd::prelude::*;
use crate::directory::{DirectoryEntry, cap_sum};
use crate::fixed::{
    SCALE, floor_sqrt, floor_sqrt_spec, lemma_floor_sqrt_at_least, lemma_floor_sqrt_is_spec,
    lemma_floor_sqrt_spec, lemma_scale_signed_within, lemma_trunc_div_bounds, scale_signed,
    scale_spec, trunc_div,
};
use crate::geometry::{Point, Rect, Size};
use crate::layout::cells::CANVAS_LIMIT;
use crate::layout::{SquareSource, VisualSquare, all_wf};

verus! {

/// Number of relaxation passes.
pub const RELAXATION_PASSES: u32 = 50;

/// Side of the square of a directory without children.
pub const DIRECTORY_BASE_SIZE: i64 = 30000;

/// Largest side of the square of a directory.
pub const DIRECTORY_MAX_SIZE: i64 = 80000;

/// Side of the square of a file of less than a kilobyte.
pub const FILE_BASE_SIZE: i64 = 20000;

/// Largest side of the square of a file.
pub const FILE_MAX_SIZE: i64 = 50000;

/// Two centres count as at least this far apart, squared: a tenth of a
/// pixel.
pub const MIN_DISTANCE_SQUARED: i64 = 10000;

/// A node moves by the force on it divided by this.
pub const DAMPING_DIVISOR: i64 = 10;

/// Most children that the circle is computed for.
pub const NODE_LIMIT: u64 = 0x80_0000_0000_0000;

/// Largest product of the number of nodes and the repulsion strength.
pub const STRENGTH_LIMIT: i128 = 0x2_0000_0000_0000_0000_0000;

/// The smaller of two integers.
pub open spec fn min_int(a: int, b: int) -> int {
    if a <= b {
        a
    } else {
        b
    }
}

/// Side of the square of an entry: for a directory 30 plus 5 times the
/// square root of its number of children, at most 80; for a file 20 plus 2
/// times the square root of its size in kilobytes, at most 50, and 20 where
/// the size is unknown.
pub open spec fn node_size_spec(e: DirectoryEntry) -> int {
    if e.is_directory {
        min_int(
            DIRECTORY_BASE_SIZE + 5 * floor_sqrt_spec(e.children@.len() as int * 1000000),
            DIRECTORY_MAX_SIZE as int,
        )
    } else {
        match e.size_bytes {
            Some(s) => min_int(
                FILE_BASE_SIZE + 2 * floor_sqrt_spec((s / 1024) * 1000000),
                FILE_MAX_SIZE as int,
            ),
            None => FILE_BASE_SIZE as int,
        }
    }
}

/// Weight of an entry among `count` siblings: for a directory its number of
/// children over `count`, and 1 where that is more; for a file one over
/// `count`.
pub open spec fn force_weight_spec(e: DirectoryEntry, count: int) -> int {
    if e.is_directory {
        if e.children@.len() >= count {
            SCALE as int
        } else {
            (e.children@.len() * SCALE) / count
        }
    } else {
        SCALE as int / count
    }
}

/// Bhaskara's approximation of the sine of `a / b` half turns, for
/// `0 <= a <= b`.
pub open spec fn half_turn_sine(a: int, b: int) -> int {
    (16 * SCALE * a * (b - a)) / (5 * b * b - 4 * a * (b - a))
}

/// Sine of `q / (4 * n)` turns, for `0 <= q <= 4 * n`.
pub open spec fn unit_sine(q: int, n: int) -> int {
    if q <= 2 * n {
        half_turn_sine(q, 2 * n)
    } else {
        -half_turn_sine(q - 2 * n, 2 * n)
    }
}

/// Cosine of `q / (4 * n)` turns, for `0 <= q < 4 * n`.
pub open spec fn unit_cosine(q: int, n: int) -> int {
    if q + n <= 4 * n {
        unit_sine(q + n, n)
    } else {
        unit_sine(q - 3 * n, n)
    }
}

/// Radius of the starting circle: four fifths of half the shorter side of
/// the canvas.
pub open spec fn circle_radius(canvas: Size) -> int {
    (min_int(canvas.width_units(), canvas.height_units()) * 4) / 10
}

/// Where node `i` of `n` starts: on the circle around the centre of the
/// canvas, `i / n` turns round.
pub open spec fn circle_point(i: int, n: int, canvas: Size) -> Point {
    Point {
        x: (canvas.width_units() / 2 + scale_spec(circle_radius(canvas), unit_cosine(4 * i, n)))
            as i64,
        y: (canvas.height_units() / 2 + scale_spec(circle_radius(canvas), unit_sine(4 * i, n)))
            as i64,
    }
}

/// Strength of the repulsion between two nodes: the square of three tenths
/// of the square root of the canvas area for each node.
pub open spec fn repulsion_strength(canvas: Size, n: int) -> int {
    (canvas.width_units() * canvas.height_units() * 9) / (100 * n)
}

/// Squared distance that two centres count as apart.
pub open spec fn distance_squared(a: Point, b: Point) -> int {
    let d = (a.x - b.x) * (a.x - b.x) + (a.y - b.y) * (a.y - b.y);
    if d < MIN_DISTANCE_SQUARED {
        MIN_DISTANCE_SQUARED as int
    } else {
        d
    }
}

/// Force along x with which `b` pushes `a` away.
pub open spec fn push_x(a: Point, b: Point, strength: int) -> int {
    trunc_div((a.x - b.x) * strength, distance_squared(a, b))
}

/// Force along y with which `b` pushes `a` away.
pub open spec fn push_y(a: Point, b: Point, strength: int) -> int {
    trunc_div((a.y - b.y) * strength, distance_squared(a, b))
}

/// Force along x on node `i` from the nodes before `upto`.
pub open spec fn force_x(centers: Seq<Point>, i: int, upto: nat, strength: int) -> int
    decreases upto,
{
    if upto == 0 || upto > centers.len() {
        0
    } else if upto - 1 == i {
        force_x(centers, i, (upto - 1) as nat, strength)
    } else {
        force_x(centers, i, (upto - 1) as nat, strength) + push_x(
            centers[i],
            centers[upto - 1],
            strength,
        )
    }
}

/// Force along y on node `i` from the nodes before `upto`.
pub open spec fn force_y(centers: Seq<Point>, i: int, upto: nat, strength: int) -> int
    decreases upto,
{
    if upto == 0 || upto > centers.len() {
        0
    } else if upto - 1 == i {
        force_y(centers, i, (upto - 1) as nat, strength)
    } else {
        force_y(centers, i, (upto - 1) as nat, strength) + push_y(
            centers[i],
            centers[upto - 1],
            strength,
        )
    }
}

/// A coordinate moved by the damped force and kept where a square of the
/// given size around it stays on a canvas of the given extent.
pub open spec fn settle(v: int, force: int, size: int, extent: int) -> int {
    let half = size / 2;
    let wanted = v + trunc_div(force, DAMPING_DIVISOR as int);
    if wanted < half {
        half
    } else if wanted > extent - (size - half) {
        extent - (size - half)
    } else {
        wanted
    }
}

/// Where node `i` goes under the force of all the others.
pub open spec fn moved_center(
    centers: Seq<Point>,
    sizes: Seq<i64>,
    i: int,
    canvas: Size,
    strength: int,
) -> Point {
    Point {
        x: settle(
            centers[i].x as int,
            force_x(centers, i, centers.len(), strength),
            sizes[i] as int,
            canvas.width_units(),
        ) as i64,
        y: settle(
            centers[i].y as int,
            force_y(centers, i, centers.len(), strength),
            sizes[i] as int,
            canvas.height_units(),
        ) as i64,
    }
}

/// One pass over the nodes before `upto`: each in turn moves under the
/// force of the others where they stand by then.
pub open spec fn relax_nodes(
    centers: Seq<Point>,
    sizes: Seq<i64>,
    canvas: Size,
    strength: int,
    upto: nat,
) -> Seq<Point>
    decreases upto,
{
    if upto == 0 || upto > centers.len() {
        centers
    } else {
        let before = relax_nodes(centers, sizes, canvas, strength, (upto - 1) as nat);
        before.update(upto - 1, moved_center(before, sizes, upto - 1, canvas, strength))
    }
}

/// The centres after `passes` passes over all nodes.
pub open spec fn relax(
    centers: Seq<Point>,
    sizes: Seq<i64>,
    canvas: Size,
    strength: int,
    passes: nat,
) -> Seq<Point>
    decreases passes,
{
    if passes == 0 {
        centers
    } else {
        relax_nodes(
            relax(centers, sizes, canvas, strength, (passes - 1) as nat),
            sizes,
            canvas,
            strength,
            centers.len(),
        )
    }
}

/// The starting centres of the children: the points of the circle.
pub open spec fn circle_spec(n: nat, canvas: Size) -> Seq<Point> {
    Seq::new(n, |i: int| circle_point(i, n as int, canvas))
}

/// The sides of the children's squares.
pub open spec fn node_sizes_spec(children: Seq<DirectoryEntry>) -> Seq<i64> {
    Seq::new(children.len(), |i: int| node_size_spec(children[i]) as i64)
}

/// No node is wider or higher than the canvas.
pub open spec fn sizes_fit(sizes: Seq<i64>, canvas: Size) -> bool {
    forall|i: int|
        0 <= i < sizes.len() ==> (#[trigger] sizes[i]) <= canvas.width_units() && sizes[i]
            <= canvas.height_units()
}

/// Whether the force-directed layout has anything to lay out and the room
/// for it: the canvas is as wide and as high as the largest node at least.
pub open spec fn force_layout_applies(root: DirectoryEntry, canvas: Size) -> bool {
    &&& root.is_directory
    &&& root.children@.len() > 0
    &&& sizes_fit(node_sizes_spec(root.children@), canvas)
}

/// The centres of the children's squares once the relaxation is over.
pub open spec fn force_centers_spec(root: DirectoryEntry, canvas: Size) -> Seq<Point> {
    let n = root.children@.len();
    relax(
        circle_spec(n, canvas),
        node_sizes_spec(root.children@),
        canvas,
        repulsion_strength(canvas, n as int),
        RELAXATION_PASSES as nat,
    )
}

/// The force-directed layout of a directory.
///
/// A root that is no directory, a directory without children and a canvas
/// that is smaller than one of the nodes give no squares. Otherwise there is one
/// square for each child, in the children's order, around the centre that
/// the relaxation leaves it at.
pub open spec fn force_layout_spec(root: DirectoryEntry, canvas: Size) -> Seq<VisualSquare> {
    if !force_layout_applies(root, canvas) {
        Seq::empty()
    } else {
        let children = root.children@;
        let centers = force_centers_spec(root, canvas);
        Seq::new(
            children.len(),
            |i: int|
                VisualSquare::spec_fresh(
                    SquareSource::Child(i as usize),
                    Rect::spec_from_center_size(
                        centers[i],
                        node_size_spec(children[i]),
                        node_size_spec(children[i]),
                    ),
                    force_weight_spec(children[i], children.len() as int),
                ),
        )
    }
}

/// Every centre lies on the canvas.
pub open spec fn on_canvas(centers: Seq<Point>, canvas: Size) -> bool {
    forall|i: int|
        0 <= i < centers.len() ==> 0 <= (#[trigger] centers[i]).x <= canvas.width_units() && 0
            <= centers[i].y <= canvas.height_units()
}

/// Every side is between the smallest and the largest size of a node.
pub open spec fn sizes_in_range(sizes: Seq<i64>) -> bool {
    forall|i: int| 0 <= i < sizes.len() ==> FILE_BASE_SIZE <= (#[trigger] sizes[i]) <= DIRECTORY_MAX_SIZE
}

/// A node's size is between 20 and 80.
pub proof fn lemma_node_size_range(e: DirectoryEntry)
    ensures
        FILE_BASE_SIZE <= node_size_spec(e) <= DIRECTORY_MAX_SIZE,
{
    if e.is_directory {
        lemma_floor_sqrt_spec(e.children@.len() as int * 1000000);
    } else if e.size_bytes is Some {
        lemma_floor_sqrt_spec((e.size_bytes->0 / 1024) * 1000000);
    }
}

/// Side of the square of an entry.
pub fn node_size(e: &DirectoryEntry) -> (size: i64)
    ensures
        size == node_size_spec(*e),
        FILE_BASE_SIZE <= size <= DIRECTORY_MAX_SIZE,
{
    proof {
        lemma_node_size_range(*e);
    }
    if e.is_directory {
        let count: usize = e.children.len();
        if count >= 100 {
            proof {
                assert(10000int * 10000int == 100000000) by (nonlinear_arith);
                lemma_floor_sqrt_at_least(count * 1000000, 10000);
            }
            DIRECTORY_MAX_SIZE
        } else {
            let root: u64 = floor_sqrt((count as u128) * 1000000);
            proof {
                lemma_floor_sqrt_is_spec(count * 1000000, root as int);
                assert(root < 10000) by (nonlinear_arith)
                    requires
                        root * root <= count * 1000000,
                        count < 100,
                        root >= 0,
                ;
            }
            let size: i64 = DIRECTORY_BASE_SIZE + 5 * (root as i64);
            if size < DIRECTORY_MAX_SIZE {
                size
            } else {
                DIRECTORY_MAX_SIZE
            }
        }
    } else {
        match e.size_bytes {
            Some(bytes) => {
                let kilobytes: u64 = bytes / 1024;
                if kilobytes >= 225 {
                    proof {
                        assert(15000int * 15000int == 225000000) by (nonlinear_arith);
                        lemma_floor_sqrt_at_least(kilobytes * 1000000, 15000);
                    }
                    FILE_MAX_SIZE
                } else {
                    let root: u64 = floor_sqrt((kilobytes as u128) * 1000000);
                    proof {
                        lemma_floor_sqrt_is_spec(kilobytes * 1000000, root as int);
                        assert(root < 15000) by (nonlinear_arith)
                            requires
                                root * root <= kilobytes * 1000000,
                                kilobytes < 225,
                                root >= 0,
                        ;
                    }
                    let size: i64 = FILE_BASE_SIZE + 2 * (root as i64);
                    if size < FILE_MAX_SIZE {
                        size
                    } else {
                        FILE_MAX_SIZE
                    }
                }
            },
            None => FILE_BASE_SIZE,
        }
    }
}

/// Bhaskara's sine lies between 0 and 1.
pub proof fn lemma_half_turn_sine_range(a: int, b: int)
    requires
        0 <= a <= b,
        b > 0,
    ensures
        0 <= half_turn_sine(a, b) <= SCALE,
        5 * b * b - 4 * a * (b - a) > 0,
        0 <= a * (b - a) <= b * b,
{
    let p = a * (b - a);
    assert(0 <= p && 4 * p <= b * b && b * b > 0) by (nonlinear_arith)
        requires
            0 <= a <= b,
            b > 0,
            p == a * (b - a),
    ;
    let den = 5 * b * b - 4 * p;
    assert(5 * b * b == 5 * (b * b)) by (nonlinear_arith);
    assert(4 * a * (b - a) == 4 * p) by (nonlinear_arith)
        requires
            p == a * (b - a),
    ;
    assert(16 * 1000 * a * (b - a) == 16000 * p) by (nonlinear_arith)
        requires
            p == a * (b - a),
    ;
    assert(0 <= (16000 * p) / den <= 1000) by (nonlinear_arith)
        requires
            0 <= p,
            den > 0,
            16000 * p <= 1000 * den,
    ;
}

/// Bhaskara's sine of `a / b` half turns.
pub fn sine_of_half_turns(a: u64, b: u64) -> (s: i64)
    requires
        a <= b,
        0 < b <= 2 * NODE_LIMIT,
    ensures
        s == half_turn_sine(a as int, b as int),
        0 <= s <= SCALE,
{
    proof {
        lemma_half_turn_sine_range(a as int, b as int);
        assert(b * b <= 0x1_0000_0000_0000_0000_0000_0000_0000) by (nonlinear_arith)
            requires
                0 < b <= 0x100_0000_0000_0000,
        ;
        assert(5 * b * b == 5 * (b * b)) by (nonlinear_arith);
        assert(4 * a * (b - a) == 4 * (a * (b - a))) by (nonlinear_arith);
        assert(16 * 1000 * a * (b - a) == 16000 * (a * (b - a))) by (nonlinear_arith);
    }
    let product: u128 = (a as u128) * ((b - a) as u128);
    let square: u128 = (b as u128) * (b as u128);
    let numerator: u128 = 16000 * product;
    let denominator: u128 = 5 * square - 4 * product;
    (numerator / denominator) as i64
}

/// Sine of `q / (4 * n)` turns.
pub fn sine_of_turn(q: u64, n: u64) -> (s: i64)
    requires
        0 < n <= NODE_LIMIT,
        q <= 4 * n,
    ensures
        s == unit_sine(q as int, n as int),
        -SCALE <= s <= SCALE,
{
    if q <= 2 * n {
        sine_of_half_turns(q, 2 * n)
    } else {
        -sine_of_half_turns(q - 2 * n, 2 * n)
    }
}

/// Cosine of `q / (4 * n)` turns.
pub fn cosine_of_turn(q: u64, n: u64) -> (c: i64)
    requires
        0 < n <= NODE_LIMIT,
        q < 4 * n,
    ensures
        c == unit_cosine(q as int, n as int),
        -SCALE <= c <= SCALE,
{
    if q <= 3 * n {
        sine_of_turn(q + n, n)
    } else {
        sine_of_turn(q - 3 * n, n)
    }
}

/// The starting circle lies on the canvas.
pub proof fn lemma_circle_on_canvas(canvas: Size, cosine: int, sine: int)
    requires
        -SCALE <= cosine <= SCALE,
        -SCALE <= sine <= SCALE,
    ensures
        0 <= circle_radius(canvas) <= canvas.width_units() / 2,
        0 <= circle_radius(canvas) <= canvas.height_units() / 2,
        0 <= canvas.width_units() / 2 + scale_spec(circle_radius(canvas), cosine)
            <= canvas.width_units(),
        0 <= canvas.height_units() / 2 + scale_spec(circle_radius(canvas), sine)
            <= canvas.height_units(),
{
    lemma_scale_signed_within(circle_radius(canvas), cosine);
    lemma_scale_signed_within(circle_radius(canvas), sine);
}

/// Where node `i` of `n` starts.
pub fn circle_start(i: usize, n: usize, canvas: Size) -> (p: Point)
    requires
        i < n,
        n <= NODE_LIMIT,
    ensures
        p == circle_point(i as int, n as int, canvas),
        0 <= p.x <= canvas.width_units(),
        0 <= p.y <= canvas.height_units(),
{
    let width: i64 = (canvas.width as i64) * SCALE;
    let height: i64 = (canvas.height as i64) * SCALE;
    let shorter: i64 = if width <= height {
        width
    } else {
        height
    };
    let radius: i64 = (shorter * 4) / 10;
    let cosine: i64 = cosine_of_turn(4 * (i as u64), n as u64);
    let sine: i64 = sine_of_turn(4 * (i as u64), n as u64);
    proof {
        lemma_circle_on_canvas(canvas, cosine as int, sine as int);
    }
    Point { x: width / 2 + scale_signed(radius, cosine), y: height / 2 + scale_signed(radius, sine) }
}

/// The repulsion strength times the number of nodes stays within bounds.
pub proof fn lemma_strength_bounded(canvas: Size, n: int)
    requires
        n >= 1,
    ensures
        0 <= repulsion_strength(canvas, n),
        n * repulsion_strength(canvas, n) <= STRENGTH_LIMIT,
        0 <= canvas.width_units() * canvas.height_units() * 9 <= 0x90_0000_0000_0000_0000_0000,
{
    let w = canvas.width_units();
    let h = canvas.height_units();
    let area = w * h * 9;
    assert(0 <= area <= 0x90_0000_0000_0000_0000_0000) by (nonlinear_arith)
        requires
            0 <= w <= 0x400_0000_0000,
            0 <= h <= 0x400_0000_0000,
            area == w * h * 9,
    ;
    let s = area / (100 * n);
    let ns = n * s;
    assert(0 <= s && 100 * ns <= area) by (nonlinear_arith)
        requires
            s == area / (100 * n),
            ns == n * s,
            n >= 1,
            0 <= area,
    ;
}

/// The force on a node is no more than what each of the others could push
/// at most.
pub proof fn lemma_force_bounded(
    centers: Seq<Point>,
    i: int,
    upto: nat,
    strength: int,
    canvas: Size,
)
    requires
        0 <= i < centers.len(),
        upto <= centers.len(),
        on_canvas(centers, canvas),
        strength >= 0,
    ensures
        -(upto * (CANVAS_LIMIT * strength)) <= force_x(centers, i, upto, strength) <= upto * (
        CANVAS_LIMIT * strength),
        -(upto * (CANVAS_LIMIT * strength)) <= force_y(centers, i, upto, strength) <= upto * (
        CANVAS_LIMIT * strength),
    decreases upto,
{
    let m = CANVAS_LIMIT * strength;
    if upto > 0 {
        lemma_force_bounded(centers, i, (upto - 1) as nat, strength, canvas);
        assert(upto * m == (upto - 1) * m + m) by (nonlinear_arith);
        if upto - 1 != i {
            lemma_push_bounded(centers[i], centers[upto - 1], strength, canvas);
        } else {
            assert(m >= 0) by (nonlinear_arith)
                requires
                    m == CANVAS_LIMIT * strength,
                    strength >= 0,
            ;
        }
    } else {
        assert(0 * m == 0);
    }
}

/// One node pushes another with no more than the canvas limit times the
/// strength.
pub proof fn lemma_push_bounded(a: Point, b: Point, strength: int, canvas: Size)
    requires
        0 <= a.x <= canvas.width_units(),
        0 <= a.y <= canvas.height_units(),
        0 <= b.x <= canvas.width_units(),
        0 <= b.y <= canvas.height_units(),
        strength >= 0,
    ensures
        -(CANVAS_LIMIT * strength) <= push_x(a, b, strength) <= CANVAS_LIMIT * strength,
        -(CANVAS_LIMIT * strength) <= push_y(a, b, strength) <= CANVAS_LIMIT * strength,
        -(CANVAS_LIMIT * strength) <= (a.x - b.x) * strength <= CANVAS_LIMIT * strength,
        -(CANVAS_LIMIT * strength) <= (a.y - b.y) * strength <= CANVAS_LIMIT * strength,
        MIN_DISTANCE_SQUARED <= distance_squared(a, b) <= 0x20_0000_0000_0000_0000_0000,
{
    let dx = a.x - b.x;
    let dy = a.y - b.y;
    let d2 = distance_squared(a, b);
    assert(-(CANVAS_LIMIT * strength) <= dx * strength <= CANVAS_LIMIT * strength)
        by (nonlinear_arith)
        requires
            -CANVAS_LIMIT <= dx <= CANVAS_LIMIT,
            strength >= 0,
    ;
    assert(-(CANVAS_LIMIT * strength) <= dy * strength <= CANVAS_LIMIT * strength)
        by (nonlinear_arith)
        requires
            -CANVAS_LIMIT <= dy <= CANVAS_LIMIT,
            strength >= 0,
    ;
    assert(0 <= dx * dx + dy * dy <= 0x20_0000_0000_0000_0000_0000) by (nonlinear_arith)
        requires
            -0x400_0000_0000 <= dx <= 0x400_0000_0000,
            -0x400_0000_0000 <= dy <= 0x400_0000_0000,
    ;
    lemma_trunc_div_bounds(dx * strength, d2);
    lemma_trunc_div_bounds(dy * strength, d2);
}

/// The force on node `i` from all the others.
pub fn repulsion(centers: &Vec<Point>, i: usize, strength: i128, canvas: Size) -> (force: (
    i128,
    i128,
))
    requires
        i < centers@.len(),
        on_canvas(centers@, canvas),
        0 <= strength,
        centers@.len() * strength <= STRENGTH_LIMIT,
    ensures
        force.0 == force_x(centers@, i as int, centers@.len(), strength as int),
        force.1 == force_y(centers@, i as int, centers@.len(), strength as int),
{
    let n: usize = centers.len();
    let me: Point = centers[i];
    let mut fx: i128 = 0;
    let mut fy: i128 = 0;
    let ghost m = CANVAS_LIMIT * strength;
    proof {
        assert(0 <= m && n * m <= 0x400_0000_0000 * 0x2_0000_0000_0000_0000_0000)
            by (nonlinear_arith)
            requires
                m == 0x400_0000_0000 * strength,
                strength >= 0,
                n * strength <= 0x2_0000_0000_0000_0000_0000,
                n >= 0,
        ;
    }
    let mut j: usize = 0;
    while j < n
        invariant
            n == centers@.len(),
            j <= n,
            i < n,
            me == centers@[i as int],
            on_canvas(centers@, canvas),
            0 <= strength,
            m == CANVAS_LIMIT * strength,
            0 <= m,
            n * m <= 0x400_0000_0000 * 0x2_0000_0000_0000_0000_0000,
            fx == force_x(centers@, i as int, j as nat, strength as int),
            fy == force_y(centers@, i as int, j as nat, strength as int),
        decreases n - j,
    {
        proof {
            lemma_force_bounded(centers@, i as int, j as nat, strength as int, canvas);
            lemma_force_bounded(centers@, i as int, (j + 1) as nat, strength as int, canvas);
            assert(j * m <= n * m && (j + 1) * m <= n * m && m <= n * m) by (nonlinear_arith)
                requires
                    j < n,
                    m >= 0,
            ;
        }
        if j != i {
            let other: Point = centers[j];
            proof {
                lemma_push_bounded(me, other, strength as int, canvas);
            }
            let dx: i128 = (me.x as i128) - (other.x as i128);
            let dy: i128 = (me.y as i128) - (other.y as i128);
            assert(0 <= dx * dx + dy * dy <= 0x20_0000_0000_0000_0000_0000 && 0 <= dx * dx
                <= 0x20_0000_0000_0000_0000_0000) by (nonlinear_arith)
                requires
                    -0x400_0000_0000 <= dx <= 0x400_0000_0000,
                    -0x400_0000_0000 <= dy <= 0x400_0000_0000,
            ;
            let squared: i128 = dx * dx + dy * dy;
            let distance: i128 = if squared < MIN_DISTANCE_SQUARED as i128 {
                MIN_DISTANCE_SQUARED as i128
            } else {
                squared
            };
            let px: i128 = (dx * strength) / distance;
            let py: i128 = (dy * strength) / distance;
            assert(px == push_x(me, other, strength as int));
            assert(py == push_y(me, other, strength as int));
            fx = fx + px;
            fy = fy + py;
        }
        j = j + 1;
    }
    (fx, fy)
}

/// A coordinate moved by the damped force and kept on the canvas.
pub fn settle_coordinate(v: i64, force: i128, size: i64, extent: i64) -> (r: i64)
    requires
        0 <= v <= extent <= CANVAS_LIMIT,
        FILE_BASE_SIZE <= size <= DIRECTORY_MAX_SIZE,
        size <= extent,
        -0x1000_0000_0000_0000_0000_0000_0000_0000 <= force
            <= 0x1000_0000_0000_0000_0000_0000_0000_0000,
    ensures
        r == settle(v as int, force as int, size as int, extent as int),
        0 <= r <= extent,
{
    let half: i64 = size / 2;
    proof {
        lemma_trunc_div_bounds(force as int, DAMPING_DIVISOR as int);
    }
    let wanted: i128 = (v as i128) + force / (DAMPING_DIVISOR as i128);
    if wanted < half as i128 {
        half
    } else if wanted > (extent - (size - half)) as i128 {
        extent - (size - half)
    } else {
        wanted as i64
    }
}

/// A settled coordinate leaves room for the square around it.
pub proof fn lemma_settle_on_canvas(v: int, force: int, size: int, extent: int)
    requires
        0 <= size <= extent,
    ensures
        size / 2 <= settle(v, force, size, extent) <= extent - (size - size / 2),
{
}

/// A centre around which the square of its node lies on the canvas.
pub open spec fn has_room(center: Point, size: int, canvas: Size) -> bool {
    &&& size / 2 <= center.x <= canvas.width_units() - (size - size / 2)
    &&& size / 2 <= center.y <= canvas.height_units() - (size - size / 2)
}

/// A pass leaves every node that it has come to where its square lies on
/// the canvas, and keeps the number of nodes.
pub proof fn lemma_relax_nodes_settled(
    centers: Seq<Point>,
    sizes: Seq<i64>,
    canvas: Size,
    strength: int,
    upto: nat,
)
    requires
        upto <= centers.len(),
        centers.len() == sizes.len(),
        sizes_in_range(sizes),
        sizes_fit(sizes, canvas),
    ensures
        relax_nodes(centers, sizes, canvas, strength, upto).len() == centers.len(),
        forall|i: int|
            0 <= i < upto ==> has_room(
                #[trigger] relax_nodes(centers, sizes, canvas, strength, upto)[i],
                sizes[i] as int,
                canvas,
            ),
    decreases upto,
{
    if upto > 0 {
        lemma_relax_nodes_settled(centers, sizes, canvas, strength, (upto - 1) as nat);
        let before = relax_nodes(centers, sizes, canvas, strength, (upto - 1) as nat);
        let i = upto - 1;
        lemma_settle_on_canvas(
            before[i].x as int,
            force_x(before, i, before.len(), strength),
            sizes[i] as int,
            canvas.width_units(),
        );
        lemma_settle_on_canvas(
            before[i].y as int,
            force_y(before, i, before.len(), strength),
            sizes[i] as int,
            canvas.height_units(),
        );
    }
}

/// The force-directed layout has one square for each child, in the
/// children's order, as large as the child's node, and all of it on the
/// canvas.
pub proof fn law_force_squares_on_canvas(root: DirectoryEntry, canvas: Size)
    requires
        root.children@.len() <= usize::MAX,
        force_layout_applies(root, canvas),
    ensures
        force_layout_spec(root, canvas).len() == root.children@.len(),
        forall|k: int|
            0 <= k < root.children@.len() ==> {
                let square = #[trigger] force_layout_spec(root, canvas)[k];
                &&& square.source == SquareSource::Child(k as usize)
                &&& square.rect.spec_width() == node_size_spec(root.children@[k])
                &&& square.rect.spec_height() == node_size_spec(root.children@[k])
                &&& 0 <= square.rect.min_x <= square.rect.max_x <= canvas.width_units()
                &&& 0 <= square.rect.min_y <= square.rect.max_y <= canvas.height_units()
            },
{
    let children = root.children@;
    let n = children.len();
    let sizes = node_sizes_spec(children);
    let strength = repulsion_strength(canvas, n as int);
    let before = relax(
        circle_spec(n, canvas),
        sizes,
        canvas,
        strength,
        (RELAXATION_PASSES - 1) as nat,
    );
    let centers = force_centers_spec(root, canvas);
    assert forall|i: int| 0 <= i < sizes.len() implies FILE_BASE_SIZE <= (#[trigger] sizes[i])
        <= DIRECTORY_MAX_SIZE by {
        lemma_node_size_range(children[i]);
    }
    lemma_relax_length(circle_spec(n, canvas), sizes, canvas, strength, (RELAXATION_PASSES - 1) as nat);
    assert(centers == relax_nodes(before, sizes, canvas, strength, n));
    lemma_relax_nodes_settled(before, sizes, canvas, strength, n);
    assert forall|k: int| 0 <= k < n implies {
        let square = #[trigger] force_layout_spec(root, canvas)[k];
        &&& square.source == SquareSource::Child(k as usize)
        &&& square.rect.spec_width() == node_size_spec(children[k])
        &&& square.rect.spec_height() == node_size_spec(children[k])
        &&& 0 <= square.rect.min_x <= square.rect.max_x <= canvas.width_units()
        &&& 0 <= square.rect.min_y <= square.rect.max_y <= canvas.height_units()
    } by {
        lemma_node_size_range(children[k]);
        assert(has_room(centers[k], sizes[k] as int, canvas));
        assert(sizes[k] == node_size_spec(children[k]));
    }
}

/// Relaxing keeps the number of nodes.
pub proof fn lemma_relax_length(
    centers: Seq<Point>,
    sizes: Seq<i64>,
    canvas: Size,
    strength: int,
    passes: nat,
)
    requires
        centers.len() == sizes.len(),
        sizes_in_range(sizes),
        sizes_fit(sizes, canvas),
    ensures
        relax(centers, sizes, canvas, strength, passes).len() == centers.len(),
    decreases passes,
{
    if passes > 0 {
        lemma_relax_length(centers, sizes, canvas, strength, (passes - 1) as nat);
        lemma_relax_nodes_settled(
            relax(centers, sizes, canvas, strength, (passes - 1) as nat),
            sizes,
            canvas,
            strength,
            centers.len(),
        );
    }
}

/// One pass of the relaxation over all nodes.
pub fn relax_once(centers: &mut Vec<Point>, sizes: &Vec<i64>, canvas: Size, strength: i128)
    requires
        old(centers)@.len() == sizes@.len(),
        on_canvas(old(centers)@, canvas),
        sizes_in_range(sizes@),
        sizes_fit(sizes@, canvas),
        0 <= strength,
        sizes@.len() * strength <= STRENGTH_LIMIT,
    ensures
        final(centers)@ == relax_nodes(
            old(centers)@,
            sizes@,
            canvas,
            strength as int,
            sizes@.len(),
        ),
        final(centers)@.len() == sizes@.len(),
        on_canvas(final(centers)@, canvas),
{
    let n: usize = centers.len();
    let width: i64 = (canvas.width as i64) * SCALE;
    let height: i64 = (canvas.height as i64) * SCALE;
    let ghost start = centers@;
    let mut i: usize = 0;
    while i < n
        invariant
            n == sizes@.len(),
            centers@.len() == n,
            start.len() == n,
            i <= n,
            width == canvas.width_units(),
            height == canvas.height_units(),
            sizes_fit(sizes@, canvas),
            sizes_in_range(sizes@),
            0 <= strength,
            n * strength <= STRENGTH_LIMIT,
            on_canvas(centers@, canvas),
            centers@ == relax_nodes(start, sizes@, canvas, strength as int, i as nat),
        decreases n - i,
    {
        let (fx, fy) = repulsion(centers, i, strength, canvas);
        proof {
            lemma_force_bounded(centers@, i as int, n as nat, strength as int, canvas);
            assert(n * (CANVAS_LIMIT * strength) <= 0x400_0000_0000 * 0x2_0000_0000_0000_0000_0000)
                by (nonlinear_arith)
                requires
                    strength >= 0,
                    n * strength <= 0x2_0000_0000_0000_0000_0000,
                    n >= 0,
            ;
        }
        let me: Point = centers[i];
        let size: i64 = sizes[i];
        let moved = Point {
            x: settle_coordinate(me.x, fx, size, width),
            y: settle_coordinate(me.y, fy, size, height),
        };
        assert(moved == moved_center(centers@, sizes@, i as int, canvas, strength as int));
        let ghost before = centers@;
        centers.set(i, moved);
        assert(centers@ == before.update(i as int, moved));
        i = i + 1;
    }
}

/// A directory whose weights fit has fewer children than the node limit.
pub proof fn lemma_few_children(children: Seq<DirectoryEntry>, upto: nat)
    requires
        upto <= children.len(),
    ensures
        cap_sum(children, upto) >= 1000 * upto,
    decreases upto,
{
    if upto > 0 {
        lemma_few_children(children, (upto - 1) as nat);
    }
}

/// Weight of an entry among `count` siblings.
pub fn force_weight(e: &DirectoryEntry, count: usize) -> (w: u64)
    requires
        0 < count,
        e.weight_cap() <= u64::MAX,
    ensures
        w == force_weight_spec(*e, count as int),
{
    if e.is_directory {
        if e.children.len() >= count {
            return 1000;
        }
        let scaled: u128 = (e.children.len() as u128) * 1000;
        assert(scaled / (count as u128) <= scaled) by (nonlinear_arith)
            requires
                count > 0,
                scaled >= 0,
        ;
        (scaled / (count as u128)) as u64
    } else {
        1000u64 / (count as u64)
    }
}

/// Lays the children of a directory out by mutual repulsion.
pub fn generate_force_directed_layout(root: &DirectoryEntry, canvas: Size) -> (squares: Vec<
    VisualSquare,
>)
    requires
        root.weights_fit(),
    ensures
        squares@ == force_layout_spec(*root, canvas),
        all_wf(squares@),
{
    let mut squares: Vec<VisualSquare> = Vec::new();
    let n: usize = root.children.len();
    if !root.is_directory || n == 0 {
        return squares;
    }
    proof {
        lemma_few_children(root.children@, n as nat);
        lemma_strength_bounded(canvas, n as int);
    }
    let width: i64 = (canvas.width as i64) * SCALE;
    let height: i64 = (canvas.height as i64) * SCALE;
    let area: i128 = (width as i128) * (height as i128) * 9;
    let strength: i128 = area / (100 * (n as i128));
    let ghost children = root.children@;
    let mut centers: Vec<Point> = Vec::new();
    let mut sizes: Vec<i64> = Vec::new();
    let mut fits: bool = true;
    let mut i: usize = 0;
    while i < n
        invariant
            n == children.len(),
            children == root.children@,
            0 < n <= NODE_LIMIT,
            i <= n,
            width == canvas.width_units(),
            height == canvas.height_units(),
            centers@.len() == i,
            sizes@.len() == i,
            fits == sizes_fit(sizes@, canvas),
            forall|k: int| 0 <= k < i ==> centers@[k] == circle_point(k, n as int, canvas),
            forall|k: int| 0 <= k < i ==> sizes@[k] == node_size_spec(children[k]),
            forall|k: int|
                0 <= k < i ==> 0 <= (#[trigger] centers@[k]).x <= canvas.width_units() && 0
                    <= centers@[k].y <= canvas.height_units(),
            forall|k: int|
                0 <= k < i ==> FILE_BASE_SIZE <= (#[trigger] sizes@[k]) <= DIRECTORY_MAX_SIZE,
        decreases n - i,
    {
        centers.push(circle_start(i, n, canvas));
        let size: i64 = node_size(&root.children[i]);
        let ghost before = sizes@;
        sizes.push(size);
        proof {
            assert forall|k: int| 0 <= k < before.len() implies before[k] == (
            #[trigger] sizes@[k]) by {}
            if sizes_fit(sizes@, canvas) {
                assert forall|k: int| 0 <= k < before.len() implies (#[trigger] before[k])
                    <= canvas.width_units() && before[k] <= canvas.height_units() by {
                    assert(before[k] == sizes@[k]);
                }
            }
            if sizes_fit(before, canvas) && size <= width && size <= height {
                assert forall|k: int| 0 <= k < sizes@.len() implies (#[trigger] sizes@[k])
                    <= canvas.width_units() && sizes@[k] <= canvas.height_units() by {
                    if k < before.len() {
                        assert(sizes@[k] == before[k]);
                    }
                }
            }
            if sizes_fit(sizes@, canvas) {
                assert(sizes@[i as int] == size);
            }
        }
        fits = fits && size <= width && size <= height;
        i = i + 1;
    }
    assert(centers@ =~= circle_spec(n as nat, canvas));
    assert(sizes@ =~= node_sizes_spec(children));
    if !fits {
        return squares;
    }
    let mut pass: u32 = 0;
    while pass < RELAXATION_PASSES
        invariant
            n == children.len(),
            0 < n <= NODE_LIMIT,
            pass <= RELAXATION_PASSES,
            centers@.len() == n,
            sizes@ == node_sizes_spec(children),
            sizes@.len() == n,
            sizes_in_range(sizes@),
            sizes_fit(sizes@, canvas),
            on_canvas(centers@, canvas),
            strength == repulsion_strength(canvas, n as int),
            0 <= strength,
            n * strength <= STRENGTH_LIMIT,
            centers@ == relax(
                circle_spec(n as nat, canvas),
                sizes@,
                canvas,
                strength as int,
                pass as nat,
            ),
        decreases RELAXATION_PASSES - pass,
    {
        relax_once(&mut centers, &sizes, canvas, strength);
        pass = pass + 1;
    }
    let ghost layout = force_layout_spec(*root, canvas);
    let mut k: usize = 0;
    while k < n
        invariant
            n == children.len(),
            children == root.children@,
            0 < n <= NODE_LIMIT,
            k <= n,
            root.weights_fit(),
            force_layout_applies(*root, canvas),
            centers@ == force_centers_spec(*root, canvas),
            centers@.len() == n,
            sizes@ == node_sizes_spec(children),
            sizes_in_range(sizes@),
            on_canvas(centers@, canvas),
            layout == force_layout_spec(*root, canvas),
            squares@.len() == k,
            forall|j: int| 0 <= j < k ==> squares@[j] == layout[j],
            all_wf(squares@),
        decreases n - k,
    {
        let size: i64 = sizes[k];
        let center: Point = centers[k];
        proof {
            crate::layout::lemma_cap_bounded(children, k as int);
            lemma_node_size_range(children[k as int]);
            assert(size == node_size_spec(children[k as int]));
        }
        let rect = Rect::from_center_size(center, size, size);
        let weight: u64 = force_weight(&root.children[k], n);
        let square = VisualSquare::fresh(SquareSource::Child(k), rect, weight);
        assert(square == layout[k as int]);
        squares.push(square);
        k = k + 1;
    }
    assert(squares@ =~= layout);
    squares
}

} // verus!
