//! What the repulsion of the force-directed layout does to distances: a
//! push never points toward the node that pushes, and two nodes alone are
//! never brought closer.
//!
//! With three nodes or more the second statement has no general form: the
//! push of a third node can carry one node toward another.

use vstd::prelude::*;
use crate::fixed::{lemma_trunc_div_bounds, trunc_div};
use crate::directory::DirectoryEntry;
use crate::geometry::{Point, Size};
use crate::layout::force::{
    DAMPING_DIVISOR, DIRECTORY_MAX_SIZE, FILE_BASE_SIZE, RELAXATION_PASSES, circle_spec,
    distance_squared, force_centers_spec, force_layout_applies, force_x, force_y, has_room,
    lemma_node_size_range, lemma_settle_on_canvas, moved_center, node_size_spec,
    node_sizes_spec, push_x, push_y, relax, relax_nodes, repulsion_strength, settle, sizes_fit,
    sizes_in_range,
};

verus! {

/// How far two coordinates are apart.
pub open spec fn gap(a: int, b: int) -> int {
    if a >= b {
        a - b
    } else {
        b - a
    }
}

/// Both centres of a pair are at least as far apart along each axis in
/// `after` as they are in `before`.
pub open spec fn no_closer(before: Seq<Point>, after: Seq<Point>) -> bool {
    &&& gap(after[0].x as int, after[1].x as int) >= gap(before[0].x as int, before[1].x as int)
    &&& gap(after[0].y as int, after[1].y as int) >= gap(before[0].y as int, before[1].y as int)
}

/// A dividend and its truncated quotient by a positive divisor are on the
/// same side of zero.
pub proof fn lemma_trunc_div_sign(a: int, b: int)
    requires
        b > 0,
    ensures
        a >= 0 ==> trunc_div(a, b) >= 0,
        a <= 0 ==> trunc_div(a, b) <= 0,
{
    lemma_trunc_div_bounds(a, b);
}

/// Repulsion only: the force with which one node pushes another never
/// points toward the node that pushes. Along each axis it is zero, or it
/// has the direction from the pushing node to the pushed one.
pub proof fn law_push_points_away(a: Point, b: Point, strength: int)
    requires
        strength >= 0,
    ensures
        a.x >= b.x ==> push_x(a, b, strength) >= 0,
        a.x <= b.x ==> push_x(a, b, strength) <= 0,
        a.y >= b.y ==> push_y(a, b, strength) >= 0,
        a.y <= b.y ==> push_y(a, b, strength) <= 0,
{
    let dx = a.x - b.x;
    let dy = a.y - b.y;
    assert(dx >= 0 ==> dx * strength >= 0) by (nonlinear_arith)
        requires
            strength >= 0,
    ;
    assert(dx <= 0 ==> dx * strength <= 0) by (nonlinear_arith)
        requires
            strength >= 0,
    ;
    assert(dy >= 0 ==> dy * strength >= 0) by (nonlinear_arith)
        requires
            strength >= 0,
    ;
    assert(dy <= 0 ==> dy * strength <= 0) by (nonlinear_arith)
        requires
            strength >= 0,
    ;
    lemma_trunc_div_sign(dx * strength, distance_squared(a, b));
    lemma_trunc_div_sign(dy * strength, distance_squared(a, b));
}

/// A coordinate that had room moves the way the force points, if it moves.
pub proof fn lemma_settle_follows_force(v: int, force: int, size: int, extent: int)
    requires
        0 <= size <= extent,
        size / 2 <= v <= extent - (size - size / 2),
    ensures
        force >= 0 ==> settle(v, force, size, extent) >= v,
        force <= 0 ==> settle(v, force, size, extent) <= v,
{
    lemma_trunc_div_sign(force, DAMPING_DIVISOR as int);
}

/// Of two nodes alone, the one that moves under the push of the other comes
/// no closer to it along either axis, and has room afterwards.
pub proof fn lemma_pair_move(
    centers: Seq<Point>,
    sizes: Seq<i64>,
    i: int,
    canvas: Size,
    strength: int,
)
    requires
        centers.len() == 2,
        sizes.len() == 2,
        0 <= i < 2,
        strength >= 0,
        sizes_in_range(sizes),
        sizes_fit(sizes, canvas),
        has_room(centers[i], sizes[i] as int, canvas),
    ensures
        no_closer(centers, centers.update(i, moved_center(centers, sizes, i, canvas, strength))),
        has_room(moved_center(centers, sizes, i, canvas, strength), sizes[i] as int, canvas),
{
    reveal_with_fuel(force_x, 3);
    reveal_with_fuel(force_y, 3);
    let j = 1 - i;
    let fx = force_x(centers, i, 2, strength);
    let fy = force_y(centers, i, 2, strength);
    assert(fx == push_x(centers[i], centers[j], strength));
    assert(fy == push_y(centers[i], centers[j], strength));
    law_push_points_away(centers[i], centers[j], strength);
    let size = sizes[i] as int;
    lemma_settle_follows_force(centers[i].x as int, fx, size, canvas.width_units());
    lemma_settle_follows_force(centers[i].y as int, fy, size, canvas.height_units());
    lemma_settle_on_canvas(centers[i].x as int, fx, size, canvas.width_units());
    lemma_settle_on_canvas(centers[i].y as int, fy, size, canvas.height_units());
}

/// One pass over two nodes alone leaves them no closer along either axis,
/// and each with room.
pub proof fn lemma_pair_pass(centers: Seq<Point>, sizes: Seq<i64>, canvas: Size, strength: int)
    requires
        centers.len() == 2,
        sizes.len() == 2,
        strength >= 0,
        sizes_in_range(sizes),
        sizes_fit(sizes, canvas),
        has_room(centers[0], sizes[0] as int, canvas),
        has_room(centers[1], sizes[1] as int, canvas),
    ensures
        relax_nodes(centers, sizes, canvas, strength, 2).len() == 2,
        no_closer(centers, relax_nodes(centers, sizes, canvas, strength, 2)),
        has_room(relax_nodes(centers, sizes, canvas, strength, 2)[0], sizes[0] as int, canvas),
        has_room(relax_nodes(centers, sizes, canvas, strength, 2)[1], sizes[1] as int, canvas),
{
    reveal_with_fuel(relax_nodes, 3);
    let first = centers.update(0, moved_center(centers, sizes, 0, canvas, strength));
    assert(relax_nodes(centers, sizes, canvas, strength, 1) == first);
    lemma_pair_move(centers, sizes, 0, canvas, strength);
    lemma_pair_move(first, sizes, 1, canvas, strength);
}

/// Two nodes alone, each with room for its square on the canvas: however
/// many passes the relaxation makes, their centres are no closer along
/// either axis than they were, so no closer in the plane.
pub proof fn law_pair_is_never_brought_closer(
    centers: Seq<Point>,
    sizes: Seq<i64>,
    canvas: Size,
    strength: int,
    passes: nat,
)
    requires
        centers.len() == 2,
        sizes.len() == 2,
        strength >= 0,
        sizes_in_range(sizes),
        sizes_fit(sizes, canvas),
        has_room(centers[0], sizes[0] as int, canvas),
        has_room(centers[1], sizes[1] as int, canvas),
    ensures
        relax(centers, sizes, canvas, strength, passes).len() == 2,
        no_closer(centers, relax(centers, sizes, canvas, strength, passes)),
        has_room(relax(centers, sizes, canvas, strength, passes)[0], sizes[0] as int, canvas),
        has_room(relax(centers, sizes, canvas, strength, passes)[1], sizes[1] as int, canvas),
    decreases passes,
{
    if passes > 0 {
        law_pair_is_never_brought_closer(centers, sizes, canvas, strength, (passes - 1) as nat);
        lemma_pair_pass(
            relax(centers, sizes, canvas, strength, (passes - 1) as nat),
            sizes,
            canvas,
            strength,
        );
    }
}

/// A directory of two children whose squares have room where the circle
/// places them: the force-directed layout leaves their centres no closer
/// along either axis than the circle placed them.
pub proof fn law_two_children_are_never_brought_closer(root: DirectoryEntry, canvas: Size)
    requires
        force_layout_applies(root, canvas),
        root.children@.len() == 2,
        has_room(circle_spec(2, canvas)[0], node_size_spec(root.children@[0]), canvas),
        has_room(circle_spec(2, canvas)[1], node_size_spec(root.children@[1]), canvas),
    ensures
        force_centers_spec(root, canvas).len() == 2,
        no_closer(circle_spec(2, canvas), force_centers_spec(root, canvas)),
{
    let children = root.children@;
    let sizes = node_sizes_spec(children);
    let strength = repulsion_strength(canvas, 2);
    assert forall|i: int| 0 <= i < sizes.len() implies FILE_BASE_SIZE <= (#[trigger] sizes[i])
        <= DIRECTORY_MAX_SIZE by {
        lemma_node_size_range(children[i]);
    }
    lemma_node_size_range(children[0]);
    lemma_node_size_range(children[1]);
    assert(canvas.width_units() * canvas.height_units() * 9 >= 0) by (nonlinear_arith)
        requires
            canvas.width_units() >= 0,
            canvas.height_units() >= 0,
    ;
    law_pair_is_never_brought_closer(
        circle_spec(2, canvas),
        sizes,
        canvas,
        strength,
        RELAXATION_PASSES as nat,
    );
}

} // verus!
