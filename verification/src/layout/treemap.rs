//! The treemap layout: the padded canvas sliced into strips along its
//! longer side, one strip for each child, heaviest first, each as long as
//! the child's share of the total weight.

use vstd::prelude::*;
use crate::directory::DirectoryEntry;
use crate::fixed::{SCALE, lemma_mul_div_le, lemma_mul_div_monotone, mul_div, mul_div_spec};
use crate::geometry::{Rect, Size};
use crate::layout::{
    Selection, SquareSource, VisualSquare, WeightRule, all_wf, lemma_total_weight_bounded,
    lemma_total_weight_monotone, lemma_weight_sum_is_total, select_children, selected_indices,
    sum_weights, total_weight, weigh_children,
};

verus! {

/// Padding between the canvas and the area that the treemap fills.
pub const TREEMAP_PADDING: i64 = 5000;

/// The weight that the treemap gives the child at index `i`.
pub open spec fn child_weight(children: Seq<DirectoryEntry>, i: int) -> int {
    WeightRule::Treemap.weight(children[i])
}

/// Where a child of the given weight goes into a list that is already in
/// descending order: behind every child that is at least as heavy.
pub open spec fn insertion_point(
    children: Seq<DirectoryEntry>,
    order: Seq<usize>,
    weight: int,
    from: nat,
) -> nat
    decreases order.len() - from,
{
    if from >= order.len() || child_weight(children, order[from as int] as int) < weight {
        from
    } else {
        insertion_point(children, order, weight, from + 1)
    }
}

/// The first `upto` children in descending order of weight; children of
/// equal weight keep their order.
pub open spec fn weight_order(children: Seq<DirectoryEntry>, upto: nat) -> Seq<usize>
    decreases upto,
{
    if upto == 0 || upto > children.len() {
        Seq::empty()
    } else {
        let rest = weight_order(children, (upto - 1) as nat);
        rest.insert(
            insertion_point(children, rest, child_weight(children, upto - 1), 0) as int,
            (upto - 1) as usize,
        )
    }
}

/// `a` comes before `b` in the treemap: it is heavier, or as heavy and
/// earlier among the children.
pub open spec fn comes_before(children: Seq<DirectoryEntry>, a: int, b: int) -> bool {
    child_weight(children, a) > child_weight(children, b) || (child_weight(children, a)
        == child_weight(children, b) && a < b)
}

/// `order` lists each of the first `upto` children once, heaviest first.
pub open spec fn is_descending_order(
    children: Seq<DirectoryEntry>,
    order: Seq<usize>,
    upto: int,
) -> bool {
    &&& order.len() == upto
    &&& forall|k: int| 0 <= k < order.len() ==> (#[trigger] order[k]) < upto
    &&& forall|i: usize| i < upto ==> #[trigger] order.contains(i)
    &&& forall|j: int, k: int|
        0 <= j < k < order.len() ==> comes_before(
            children,
            (#[trigger] order[j]) as int,
            (#[trigger] order[k]) as int,
        )
}

/// The insertion point lies behind the children that are at least as heavy
/// and before the first lighter one.
pub proof fn lemma_insertion_point(
    children: Seq<DirectoryEntry>,
    order: Seq<usize>,
    weight: int,
    from: nat,
)
    requires
        from <= order.len(),
    ensures
        from <= insertion_point(children, order, weight, from) <= order.len(),
        forall|j: int|
            from <= j < insertion_point(children, order, weight, from) ==> child_weight(
                children,
                (#[trigger] order[j]) as int,
            ) >= weight,
        insertion_point(children, order, weight, from) < order.len() ==> child_weight(
            children,
            order[insertion_point(children, order, weight, from) as int] as int,
        ) < weight,
    decreases order.len() - from,
{
    if from < order.len() && child_weight(children, order[from as int] as int) >= weight {
        lemma_insertion_point(children, order, weight, from + 1);
    }
}

/// In a list in descending order, the place behind the last child that is
/// at least as heavy is the insertion point.
pub proof fn lemma_insertion_from_the_end(
    children: Seq<DirectoryEntry>,
    order: Seq<usize>,
    weight: int,
    p: int,
)
    requires
        is_descending_order(children, order, order.len() as int),
        0 <= p <= order.len(),
        p > 0 ==> child_weight(children, order[p - 1] as int) >= weight,
        forall|k: int|
            p <= k < order.len() ==> child_weight(children, (#[trigger] order[k]) as int) < weight,
    ensures
        insertion_point(children, order, weight, 0) == p,
{
    let found = insertion_point(children, order, weight, 0) as int;
    lemma_insertion_point(children, order, weight, 0);
    if found < p {
        if found < p - 1 {
            assert(comes_before(children, order[found] as int, order[p - 1] as int));
        }
    } else if found > p {
        assert(child_weight(children, order[p] as int) >= weight);
    }
}

/// `weight_order` lists each child once, in descending order of weight,
/// with children of equal weight in the order they came in.
pub proof fn lemma_weight_order(children: Seq<DirectoryEntry>, upto: nat)
    requires
        upto <= children.len(),
        children.len() <= usize::MAX,
    ensures
        is_descending_order(children, weight_order(children, upto), upto as int),
    decreases upto,
{
    if upto > 0 {
        let rest = weight_order(children, (upto - 1) as nat);
        let x = (upto - 1) as usize;
        let w = child_weight(children, upto - 1);
        let p = insertion_point(children, rest, w, 0) as int;
        let order = weight_order(children, upto);
        lemma_weight_order(children, (upto - 1) as nat);
        lemma_insertion_point(children, rest, w, 0);
        assert(order == rest.insert(p, x));
        assert forall|i: usize| i < upto implies #[trigger] order.contains(i) by {
            if i < upto - 1 {
                assert(rest.contains(i));
                let k = choose|k: int| 0 <= k < rest.len() && rest[k] == i;
                if k < p {
                    assert(order[k] == i);
                } else {
                    assert(order[k + 1] == i);
                }
            } else {
                assert(order[p] == i);
            }
        }
        assert forall|j: int, k: int| 0 <= j < k < order.len() implies comes_before(
            children,
            (#[trigger] order[j]) as int,
            (#[trigger] order[k]) as int,
        ) by {
            if k < p {
                assert(order[j] == rest[j] && order[k] == rest[k]);
            } else if k == p {
                assert(order[j] == rest[j]);
                assert(child_weight(children, rest[j] as int) >= w);
            } else if j < p {
                assert(order[j] == rest[j] && order[k] == rest[k - 1]);
            } else if j == p {
                assert(order[k] == rest[k - 1]);
                if p < k - 1 {
                    assert(comes_before(children, rest[p] as int, rest[k - 1] as int));
                }
            } else {
                assert(order[j] == rest[j - 1] && order[k] == rest[k - 1]);
            }
        }
    }
}

/// Weight of the first `k` children of the order, taken together.
pub open spec fn prefix_weight(children: Seq<DirectoryEntry>, order: Seq<usize>, k: nat) -> int {
    total_weight(children, order, WeightRule::Treemap, k)
}

/// Inserting a child into a list adds its weight to the list's total.
pub proof fn lemma_total_weight_insert(
    children: Seq<DirectoryEntry>,
    order: Seq<usize>,
    p: int,
    x: usize,
    upto: nat,
)
    requires
        0 <= p <= order.len(),
        upto <= order.len() + 1,
    ensures
        upto <= p ==> total_weight(children, order.insert(p, x), WeightRule::Treemap, upto)
            == total_weight(children, order, WeightRule::Treemap, upto),
        upto > p ==> total_weight(children, order.insert(p, x), WeightRule::Treemap, upto)
            == total_weight(children, order, WeightRule::Treemap, (upto - 1) as nat)
            + child_weight(children, x as int),
    decreases upto,
{
    if upto > 0 {
        lemma_total_weight_insert(children, order, p, x, (upto - 1) as nat);
        let inserted = order.insert(p, x);
        if upto - 1 < p {
            assert(inserted[upto - 1] == order[upto - 1]);
        } else if upto - 1 == p {
            assert(inserted[upto - 1] == x);
        } else {
            assert(inserted[upto - 1] == order[upto - 2]);
        }
    }
}

/// The children weigh the same in any order.
pub proof fn lemma_order_keeps_total(children: Seq<DirectoryEntry>, upto: nat)
    requires
        upto <= children.len(),
        children.len() <= usize::MAX,
    ensures
        prefix_weight(children, weight_order(children, upto), upto) == total_weight(
            children,
            selected_indices(children, Selection::All, upto),
            WeightRule::Treemap,
            upto,
        ),
        selected_indices(children, Selection::All, upto).len() == upto,
    decreases upto,
{
    if upto > 0 {
        let rest = weight_order(children, (upto - 1) as nat);
        let w = child_weight(children, upto - 1);
        let p = insertion_point(children, rest, w, 0) as int;
        lemma_order_keeps_total(children, (upto - 1) as nat);
        lemma_weight_order(children, (upto - 1) as nat);
        lemma_insertion_point(children, rest, w, 0);
        lemma_total_weight_insert(children, rest, p, (upto - 1) as usize, upto);
        let all = selected_indices(children, Selection::All, upto);
        let before = selected_indices(children, Selection::All, (upto - 1) as nat);
        assert(all == before.push((upto - 1) as usize));
        lemma_total_weight_prefix(children, all, before, (upto - 1) as nat);
    }
}

/// Index lists that agree on a prefix weigh the same on it.
pub proof fn lemma_total_weight_prefix(
    children: Seq<DirectoryEntry>,
    a: Seq<usize>,
    b: Seq<usize>,
    upto: nat,
)
    requires
        upto <= a.len(),
        upto <= b.len(),
        forall|k: int| 0 <= k < upto ==> a[k] == b[k],
    ensures
        total_weight(children, a, WeightRule::Treemap, upto) == total_weight(
            children,
            b,
            WeightRule::Treemap,
            upto,
        ),
    decreases upto,
{
    if upto > 0 {
        lemma_total_weight_prefix(children, a, b, (upto - 1) as nat);
    }
}

/// Sum of all children's weights, with 1 in place of a sum of 0.
pub open spec fn treemap_total(children: Seq<DirectoryEntry>) -> int {
    let sum = prefix_weight(children, weight_order(children, children.len()), children.len());
    if sum == 0 {
        1
    } else {
        sum
    }
}

/// The canvas without its padding.
pub open spec fn padded_area(canvas: Size) -> Rect {
    Rect {
        min_x: TREEMAP_PADDING,
        min_y: TREEMAP_PADDING,
        max_x: (canvas.width_units() - TREEMAP_PADDING) as i64,
        max_y: (canvas.height_units() - TREEMAP_PADDING) as i64,
    }
}

/// Whether the padded canvas has any area to fill.
pub open spec fn has_padded_area(canvas: Size) -> bool {
    canvas.width_units() > 2 * TREEMAP_PADDING && canvas.height_units() > 2 * TREEMAP_PADDING
}

/// Strips run side by side along the x axis where the padded canvas is at
/// least as wide as it is high, else one below the other.
pub open spec fn slices_horizontally(canvas: Size) -> bool {
    canvas.width_units() >= canvas.height_units()
}

/// Length of the side of the padded canvas that is cut into strips.
pub open spec fn sliced_extent(canvas: Size) -> int {
    if slices_horizontally(canvas) {
        canvas.width_units() - 2 * TREEMAP_PADDING
    } else {
        canvas.height_units() - 2 * TREEMAP_PADDING
    }
}

/// Distance from the leading edge of the padded canvas to the cut behind
/// the children that weigh `prefix` together.
pub open spec fn cut_at(canvas: Size, prefix: int, total: int) -> int {
    mul_div_spec(sliced_extent(canvas), prefix, total)
}

/// The strip between two cuts.
pub open spec fn strip(canvas: Size, start: int, end: int) -> Rect {
    let area = padded_area(canvas);
    if slices_horizontally(canvas) {
        Rect {
            min_x: (area.min_x + start) as i64,
            min_y: area.min_y,
            max_x: (area.min_x + end) as i64,
            max_y: area.max_y,
        }
    } else {
        Rect {
            min_x: area.min_x,
            min_y: (area.min_y + start) as i64,
            max_x: area.max_x,
            max_y: (area.min_y + end) as i64,
        }
    }
}

/// The rectangle of the `k`-th heaviest child: the strip from the cut
/// behind the heavier children to the cut behind the child itself.
pub open spec fn treemap_rect(children: Seq<DirectoryEntry>, canvas: Size, k: int) -> Rect {
    let order = weight_order(children, children.len());
    let total = treemap_total(children);
    strip(
        canvas,
        cut_at(canvas, prefix_weight(children, order, k as nat), total),
        cut_at(canvas, prefix_weight(children, order, (k + 1) as nat), total),
    )
}

/// The strips of the children, heaviest first.
pub open spec fn treemap_strips(children: Seq<DirectoryEntry>, canvas: Size) -> Seq<VisualSquare> {
    let order = weight_order(children, children.len());
    Seq::new(
        children.len(),
        |k: int|
            VisualSquare::spec_fresh(
                SquareSource::Child(order[k]),
                treemap_rect(children, canvas, k),
                (child_weight(children, order[k] as int) * SCALE) / treemap_total(children),
            ),
    )
}

/// The treemap layout of a directory.
///
/// A root that is no directory, a directory without children and a canvas
/// that its padding leaves no area give no squares. Otherwise there is one
/// square for each child, heaviest first.
pub open spec fn treemap_layout_spec(root: DirectoryEntry, canvas: Size) -> Seq<VisualSquare> {
    let children = root.children@;
    if !root.is_directory || children.len() == 0 || !has_padded_area(canvas) {
        Seq::empty()
    } else {
        treemap_strips(children, canvas)
    }
}

/// The children's indices in descending order of weight.
pub fn order_by_weight(children: &Vec<DirectoryEntry>, weights: &Vec<u64>) -> (order: Vec<usize>)
    requires
        weights@.len() == children@.len(),
        forall|i: int|
            0 <= i < children@.len() ==> (#[trigger] weights@[i]) == child_weight(children@, i),
    ensures
        order@ == weight_order(children@, children@.len()),
        is_descending_order(children@, order@, children@.len() as int),
{
    let mut order: Vec<usize> = Vec::new();
    let n: usize = children.len();
    let mut i: usize = 0;
    while i < n
        invariant
            n == children@.len(),
            i <= n,
            weights@.len() == n,
            forall|j: int| 0 <= j < n ==> (#[trigger] weights@[j]) == child_weight(children@, j),
            order@ == weight_order(children@, i as nat),
            is_descending_order(children@, order@, i as int),
        decreases n - i,
    {
        let weight: u64 = weights[i];
        // The place is looked for from the end, where it is for children
        // that come in descending order already.
        let mut p: usize = order.len();
        while p > 0 && weights[order[p - 1]] < weight
            invariant
                p <= order@.len(),
                i < n,
                n == children@.len(),
                weights@.len() == n,
                weight == child_weight(children@, i as int),
                forall|j: int|
                    0 <= j < n ==> (#[trigger] weights@[j]) == child_weight(children@, j),
                forall|k: int| 0 <= k < order@.len() ==> (#[trigger] order@[k]) < i,
                forall|k: int|
                    p <= k < order@.len() ==> child_weight(
                        children@,
                        (#[trigger] order@[k]) as int,
                    ) < weight,
            decreases p,
        {
            p = p - 1;
        }
        proof {
            lemma_insertion_from_the_end(children@, order@, weight as int, p as int);
        }
        order.insert(p, i);
        proof {
            lemma_weight_order(children@, (i + 1) as nat);
        }
        i = i + 1;
    }
    order
}

/// The weight of every child, by the child's index.
pub fn treemap_weights(children: &Vec<DirectoryEntry>) -> (weights: Vec<u64>)
    requires
        crate::directory::cap_sum(children@, children@.len()) < u64::MAX,
    ensures
        weights@.len() == children@.len(),
        forall|i: int|
            0 <= i < children@.len() ==> (#[trigger] weights@[i]) == child_weight(children@, i),
        crate::layout::weight_sum(weights@, weights@.len()) == prefix_weight(
            children@,
            weight_order(children@, children@.len()),
            children@.len(),
        ),
        crate::layout::weight_sum(weights@, weights@.len()) < u64::MAX,
{
    let n: usize = children.len();
    let all = select_children(children, Selection::All);
    let weights = weigh_children(children, &all, WeightRule::Treemap);
    proof {
        assert(n == children@.len());
        lemma_all_selected(children@, children@.len());
        lemma_weight_sum_is_total(children@, all@, WeightRule::Treemap, weights@, all@.len());
        lemma_total_weight_bounded(children@, all@, WeightRule::Treemap, all@.len());
        lemma_order_keeps_total(children@, children@.len());
    }
    weights
}

/// Selecting every child lists the indices as they are.
pub proof fn lemma_all_selected(children: Seq<DirectoryEntry>, upto: nat)
    requires
        upto <= children.len(),
        children.len() <= usize::MAX,
    ensures
        selected_indices(children, Selection::All, upto).len() == upto,
        forall|i: int|
            0 <= i < upto ==> (#[trigger] selected_indices(children, Selection::All, upto)[i]) == i,
    decreases upto,
{
    if upto > 0 {
        lemma_all_selected(children, (upto - 1) as nat);
        assert(selected_indices(children, Selection::All, upto) == selected_indices(
            children,
            Selection::All,
            (upto - 1) as nat,
        ).push((upto - 1) as usize));
    }
}

/// Lays the children of a directory out as strips of the padded canvas.
pub fn generate_treemap_layout(root: &DirectoryEntry, canvas: Size) -> (squares: Vec<VisualSquare>)
    requires
        root.weights_fit(),
    ensures
        squares@ == treemap_layout_spec(*root, canvas),
        all_wf(squares@),
{
    let width: i64 = (canvas.width as i64) * SCALE;
    let height: i64 = (canvas.height as i64) * SCALE;
    if !root.is_directory || root.children.len() == 0 || width <= 2 * TREEMAP_PADDING || height
        <= 2 * TREEMAP_PADDING {
        return Vec::new();
    }
    let weights = treemap_weights(&root.children);
    let sum: u64 = sum_weights(&weights);
    let total: u64 = if sum == 0 {
        1
    } else {
        sum
    };
    let order = order_by_weight(&root.children, &weights);
    proof {
        lemma_ordered_weight_of_children(
            root.children@,
            weights@,
            order@,
            root.children@.len(),
        );
        lemma_strips_of_children(root.children@, weights@, canvas);
    }
    generate_squarified_treemap(&order, &weights, total, canvas)
}

/// Weight of the children at the first `k` places of an order, taken
/// together, each child's weight standing at its index.
pub open spec fn ordered_weight(weights: Seq<u64>, order: Seq<usize>, k: nat) -> int
    decreases k,
{
    if k == 0 || k > order.len() {
        0
    } else {
        ordered_weight(weights, order, (k - 1) as nat) + weights[order[k - 1] as int]
    }
}

/// The strip at place `k` of an order: from the cut behind the children
/// before it to the cut behind the child itself.
pub open spec fn strip_in_order(
    order: Seq<usize>,
    weights: Seq<u64>,
    total: int,
    canvas: Size,
    k: int,
) -> Rect {
    strip(
        canvas,
        cut_at(canvas, ordered_weight(weights, order, k as nat), total),
        cut_at(canvas, ordered_weight(weights, order, (k + 1) as nat), total),
    )
}

/// One strip for each place of an order, each with its child's share of
/// the total.
pub open spec fn strips_in_order(
    order: Seq<usize>,
    weights: Seq<u64>,
    total: int,
    canvas: Size,
) -> Seq<VisualSquare> {
    Seq::new(
        order.len(),
        |k: int|
            VisualSquare::spec_fresh(
                SquareSource::Child(order[k]),
                strip_in_order(order, weights, total, canvas, k),
                (weights[order[k] as int] * SCALE) / total,
            ),
    )
}

/// The weight of the first places grows with their number.
pub proof fn lemma_ordered_weight_monotone(weights: Seq<u64>, order: Seq<usize>, a: nat, b: nat)
    requires
        a <= b <= order.len(),
    ensures
        0 <= ordered_weight(weights, order, a) <= ordered_weight(weights, order, b),
    decreases b,
{
    if a < b {
        lemma_ordered_weight_monotone(weights, order, a, (b - 1) as nat);
    } else if b > 0 {
        lemma_ordered_weight_monotone(weights, order, 0, (b - 1) as nat);
    }
}

/// Where the weights are the children's treemap weights, the weight of the
/// first places of an order is the weight of the children listed there.
pub proof fn lemma_ordered_weight_of_children(
    children: Seq<DirectoryEntry>,
    weights: Seq<u64>,
    order: Seq<usize>,
    k: nat,
)
    requires
        k <= order.len(),
        weights.len() == children.len(),
        forall|i: int| 0 <= i < children.len() ==> (#[trigger] weights[i]) == child_weight(children, i),
        forall|j: int| 0 <= j < order.len() ==> (#[trigger] order[j]) < children.len(),
    ensures
        ordered_weight(weights, order, k) == prefix_weight(children, order, k),
    decreases k,
{
    if k > 0 {
        lemma_ordered_weight_of_children(children, weights, order, (k - 1) as nat);
    }
}

/// Whether an order and weights can be cut for: the order names children
/// that have a weight, and the children that it names weigh no more than
/// the total together, which is 1 at least.
pub open spec fn strips_fit(order: Seq<usize>, weights: Seq<u64>, total: int) -> bool {
    &&& forall|k: int| 0 <= k < order.len() ==> (#[trigger] order[k]) < weights.len()
    &&& total >= 1
    &&& ordered_weight(weights, order, order.len()) <= total
}

/// Tests whether an order and weights can be cut for.
pub fn has_fitting_strips(order: &Vec<usize>, weights: &Vec<u64>, total: u64) -> (fits: bool)
    ensures
        fits == strips_fit(order@, weights@, total as int),
{
    if total == 0 {
        return false;
    }
    let n: usize = order.len();
    let mut sum: u64 = 0;
    let mut k: usize = 0;
    while k < n
        invariant
            n == order@.len(),
            k <= n,
            total >= 1,
            forall|j: int| 0 <= j < k ==> (#[trigger] order@[j]) < weights@.len(),
            sum == ordered_weight(weights@, order@, k as nat),
            sum <= total,
        decreases n - k,
    {
        let child: usize = order[k];
        if child >= weights.len() {
            return false;
        }
        let weight: u64 = weights[child];
        if weight > total - sum {
            proof {
                lemma_ordered_weight_monotone(weights@, order@, (k + 1) as nat, n as nat);
            }
            return false;
        }
        sum = sum + weight;
        k = k + 1;
    }
    true
}

/// Cuts the padded canvas into one strip for each place of the order: each
/// strip runs from the cut behind the children before it to the cut behind
/// the child itself, and a cut lies at the share of the sliced side that
/// the weight before it has in the total.
pub fn generate_squarified_treemap(
    order: &Vec<usize>,
    weights: &Vec<u64>,
    total: u64,
    canvas: Size,
) -> (squares: Vec<VisualSquare>)
    requires
        has_padded_area(canvas),
        strips_fit(order@, weights@, total as int),
    ensures
        squares@ == strips_in_order(order@, weights@, total as int, canvas),
        all_wf(squares@),
{
    let mut squares: Vec<VisualSquare> = Vec::new();
    let width: i64 = (canvas.width as i64) * SCALE;
    let height: i64 = (canvas.height as i64) * SCALE;
    let n: usize = order.len();
    let horizontal: bool = width >= height;
    let extent: u64 = if horizontal {
        (width - 2 * TREEMAP_PADDING) as u64
    } else {
        (height - 2 * TREEMAP_PADDING) as u64
    };
    let ghost layout = strips_in_order(order@, weights@, total as int, canvas);
    let mut prefix: u64 = 0;
    let mut start: u64 = 0;
    proof {
        lemma_mul_div_le(extent as int, 0, total as int);
    }
    let mut k: usize = 0;
    while k < n
        invariant
            n == order@.len(),
            k <= n,
            has_padded_area(canvas),
            width == canvas.width_units(),
            height == canvas.height_units(),
            horizontal == slices_horizontally(canvas),
            extent == sliced_extent(canvas),
            forall|j: int| 0 <= j < order@.len() ==> (#[trigger] order@[j]) < weights@.len(),
            total >= 1,
            ordered_weight(weights@, order@, n as nat) <= total,
            prefix == ordered_weight(weights@, order@, k as nat),
            start == cut_at(canvas, prefix as int, total as int),
            layout == strips_in_order(order@, weights@, total as int, canvas),
            squares@.len() == k,
            forall|j: int| 0 <= j < k ==> squares@[j] == layout[j],
            all_wf(squares@),
        decreases n - k,
    {
        let child: usize = order[k];
        let weight: u64 = weights[child];
        proof {
            lemma_ordered_weight_monotone(weights@, order@, (k + 1) as nat, n as nat);
            lemma_ordered_weight_monotone(weights@, order@, 0, k as nat);
            assert(ordered_weight(weights@, order@, (k + 1) as nat) == prefix + weight);
            lemma_mul_div_le(extent as int, prefix + weight, total as int);
            lemma_mul_div_le(extent as int, prefix as int, total as int);
            lemma_mul_div_monotone(extent as int, prefix as int, prefix + weight, total as int);
            assert((weight * 1000) / (total as int) <= 1000) by (nonlinear_arith)
                requires
                    0 <= weight <= total,
                    total >= 1,
            ;
        }
        prefix = prefix + weight;
        let end: u64 = mul_div(extent, prefix, total);
        let rect = if horizontal {
            Rect {
                min_x: TREEMAP_PADDING + (start as i64),
                min_y: TREEMAP_PADDING,
                max_x: TREEMAP_PADDING + (end as i64),
                max_y: height - TREEMAP_PADDING,
            }
        } else {
            Rect {
                min_x: TREEMAP_PADDING,
                min_y: TREEMAP_PADDING + (start as i64),
                max_x: width - TREEMAP_PADDING,
                max_y: TREEMAP_PADDING + (end as i64),
            }
        };
        assert(rect == strip_in_order(order@, weights@, total as int, canvas, k as int));
        let share: u128 = ((weight as u128) * 1000) / (total as u128);
        let square = VisualSquare::fresh(SquareSource::Child(child), rect, share as u64);
        assert(square == layout[k as int]);
        squares.push(square);
        start = end;
        k = k + 1;
    }
    assert(squares@ =~= layout);
    squares
}

/// In the children's descending order of weight, with their treemap
/// weights and the total of those, the strips of an order are the strips
/// of the treemap.
pub proof fn lemma_strips_of_children(
    children: Seq<DirectoryEntry>,
    weights: Seq<u64>,
    canvas: Size,
)
    requires
        children.len() <= usize::MAX,
        weights.len() == children.len(),
        forall|i: int| 0 <= i < children.len() ==> (#[trigger] weights[i]) == child_weight(children, i),
    ensures
        strips_in_order(
            weight_order(children, children.len()),
            weights,
            treemap_total(children),
            canvas,
        ) == treemap_strips(children, canvas),
{
    let n = children.len();
    let order = weight_order(children, n);
    let total = treemap_total(children);
    lemma_weight_order(children, n);
    let ours = strips_in_order(order, weights, total, canvas);
    let theirs = treemap_strips(children, canvas);
    assert forall|k: int| 0 <= k < n implies ours[k] == theirs[k] by {
        lemma_ordered_weight_of_children(children, weights, order, k as nat);
        lemma_ordered_weight_of_children(children, weights, order, (k + 1) as nat);
    }
    assert(ours =~= theirs);
}

} // verus!
