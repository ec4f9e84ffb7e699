//! What holds of the strips that a canvas is cut into, for any order of the
//! children and any weights: one strip for each place of the order, and,
//! where the weights add up to the total, a tiling of the padded canvas.

use vstd::prelude::*;
use crate::fixed::{lemma_mul_div_le, lemma_mul_div_monotone};
use crate::geometry::{Point, Size};
use crate::layout::SquareSource;
use crate::layout::treemap::{
    cut_at, has_padded_area, lemma_ordered_weight_monotone, ordered_weight, padded_area,
    sliced_extent, slices_horizontally, strip_in_order, strips_fit, strips_in_order,
};

verus! {

/// The cuts never run backward: they start at the leading edge of the
/// padded canvas and stay before its far edge, which the last one reaches
/// where the weights add up to the total.
pub proof fn lemma_order_cuts_ascend(
    order: Seq<usize>,
    weights: Seq<u64>,
    total: int,
    canvas: Size,
    j: nat,
    k: nat,
)
    requires
        has_padded_area(canvas),
        total >= 1,
        ordered_weight(weights, order, order.len()) <= total,
        j <= k <= order.len(),
    ensures
        0 <= cut_at(canvas, ordered_weight(weights, order, j), total) <= cut_at(
            canvas,
            ordered_weight(weights, order, k),
            total,
        ) <= sliced_extent(canvas),
        cut_at(canvas, ordered_weight(weights, order, 0), total) == 0,
        ordered_weight(weights, order, order.len()) == total ==> cut_at(
            canvas,
            ordered_weight(weights, order, order.len()),
            total,
        ) == sliced_extent(canvas),
{
    let n = order.len();
    lemma_ordered_weight_monotone(weights, order, 0, j);
    lemma_ordered_weight_monotone(weights, order, j, k);
    lemma_ordered_weight_monotone(weights, order, k, n);
    let pj = ordered_weight(weights, order, j);
    let pk = ordered_weight(weights, order, k);
    assert(ordered_weight(weights, order, 0) == 0);
    lemma_mul_div_le(sliced_extent(canvas), pj, total);
    lemma_mul_div_le(sliced_extent(canvas), pk, total);
    lemma_mul_div_le(sliced_extent(canvas), total, total);
    lemma_mul_div_le(sliced_extent(canvas), 0, total);
    lemma_mul_div_monotone(sliced_extent(canvas), pj, pk, total);
}

/// Below any cut but the first there is a strip that holds the distance
/// `d`: its own cut is beyond `d`, the one before it is not.
pub proof fn lemma_order_strip_exists(
    order: Seq<usize>,
    weights: Seq<u64>,
    total: int,
    canvas: Size,
    d: int,
    upto: nat,
) -> (k: nat)
    requires
        has_padded_area(canvas),
        total >= 1,
        ordered_weight(weights, order, order.len()) <= total,
        upto <= order.len(),
        0 <= d < cut_at(canvas, ordered_weight(weights, order, upto), total),
    ensures
        k < upto,
        cut_at(canvas, ordered_weight(weights, order, k), total) <= d < cut_at(
            canvas,
            ordered_weight(weights, order, k + 1),
            total,
        ),
    decreases upto,
{
    lemma_order_cuts_ascend(order, weights, total, canvas, 0, upto);
    if upto == 0 {
        0
    } else {
        let before = cut_at(canvas, ordered_weight(weights, order, (upto - 1) as nat), total);
        if d < before {
            lemma_order_strip_exists(order, weights, total, canvas, d, (upto - 1) as nat)
        } else {
            (upto - 1) as nat
        }
    }
}

/// There is one strip for each place of the order, and it stands for the
/// child that the order names there, with that child's share of the total.
pub proof fn law_one_strip_per_place(
    order: Seq<usize>,
    weights: Seq<u64>,
    total: int,
    canvas: Size,
)
    requires
        strips_fit(order, weights, total),
    ensures
        strips_in_order(order, weights, total, canvas).len() == order.len(),
        forall|k: int|
            0 <= k < order.len() ==> {
                let square = #[trigger] strips_in_order(order, weights, total, canvas)[k];
                &&& square.source == SquareSource::Child(order[k])
                &&& square.size_weight as int == (weights[order[k] as int] * 1000) / total
                &&& square.size_weight <= 1000
            },
{
    assert forall|k: int| 0 <= k < order.len() implies {
        let square = #[trigger] strips_in_order(order, weights, total, canvas)[k];
        &&& square.source == SquareSource::Child(order[k])
        &&& square.size_weight as int == (weights[order[k] as int] * 1000) / total
        &&& square.size_weight <= 1000
    } by {
        let weight = weights[order[k] as int] as int;
        lemma_ordered_weight_monotone(weights, order, 0, k as nat);
        lemma_ordered_weight_monotone(weights, order, (k + 1) as nat, order.len());
        assert(ordered_weight(weights, order, (k + 1) as nat) == ordered_weight(
            weights,
            order,
            k as nat,
        ) + weight);
        assert(0 <= (weight * 1000) / total <= 1000) by (nonlinear_arith)
            requires
                0 <= weight <= total,
                total >= 1,
        ;
    }
}

/// Strips whose weights add up to the total tile the padded canvas without
/// gap or overlap: each lies within the padded canvas, and every point of
/// the padded canvas lies in one strip and no other.
pub proof fn law_strips_tile(
    order: Seq<usize>,
    weights: Seq<u64>,
    total: int,
    canvas: Size,
    p: Point,
)
    requires
        has_padded_area(canvas),
        total >= 1,
        ordered_weight(weights, order, order.len()) == total,
    ensures
        forall|k: int|
            0 <= k < order.len() ==> {
                let r = (#[trigger] strips_in_order(order, weights, total, canvas)[k]).rect;
                &&& padded_area(canvas).min_x <= r.min_x <= r.max_x <= padded_area(canvas).max_x
                &&& padded_area(canvas).min_y <= r.min_y <= r.max_y <= padded_area(canvas).max_y
            },
        padded_area(canvas).covers(p) ==> exists|k: int|
            0 <= k < order.len() && (#[trigger] strips_in_order(
                order,
                weights,
                total,
                canvas,
            )[k]).rect.covers(p),
        forall|j: int, k: int|
            0 <= j < k < order.len() ==> !((#[trigger] strips_in_order(
                order,
                weights,
                total,
                canvas,
            )[j]).rect.covers(p) && (#[trigger] strips_in_order(
                order,
                weights,
                total,
                canvas,
            )[k]).rect.covers(p)),
{
    let n = order.len();
    let layout = strips_in_order(order, weights, total, canvas);
    let area = padded_area(canvas);
    assert forall|k: int| 0 <= k < n implies {
        let r = (#[trigger] layout[k]).rect;
        &&& area.min_x <= r.min_x <= r.max_x <= area.max_x
        &&& area.min_y <= r.min_y <= r.max_y <= area.max_y
    } by {
        lemma_order_cuts_ascend(order, weights, total, canvas, k as nat, (k + 1) as nat);
        assert(layout[k].rect == strip_in_order(order, weights, total, canvas, k));
    }
    if area.covers(p) {
        let d = if slices_horizontally(canvas) {
            p.x - area.min_x
        } else {
            p.y - area.min_y
        };
        lemma_order_cuts_ascend(order, weights, total, canvas, 0, n);
        let k = lemma_order_strip_exists(order, weights, total, canvas, d, n);
        lemma_order_cuts_ascend(order, weights, total, canvas, k, k + 1);
        assert(layout[k as int].rect == strip_in_order(order, weights, total, canvas, k as int));
        assert(layout[k as int].rect.covers(p));
    }
    assert forall|j: int, k: int| 0 <= j < k < n implies !((#[trigger] layout[j]).rect.covers(p)
        && (#[trigger] layout[k]).rect.covers(p)) by {
        lemma_order_cuts_ascend(order, weights, total, canvas, j as nat, (j + 1) as nat);
        lemma_order_cuts_ascend(order, weights, total, canvas, (j + 1) as nat, k as nat);
        lemma_order_cuts_ascend(order, weights, total, canvas, k as nat, (k + 1) as nat);
        assert(layout[j].rect == strip_in_order(order, weights, total, canvas, j));
        assert(layout[k].rect == strip_in_order(order, weights, total, canvas, k));
    }
}

} // verus!
