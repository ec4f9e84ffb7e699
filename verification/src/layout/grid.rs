//! The grid layout: one cell for each entry, the square in it scaled by the
//! entry's share of the total weight.

use vstd::prelude::*;
use crate::directory::DirectoryEntry;
use crate::fixed::{
    SCALE, ceil_div, ceil_div_spec, ceil_sqrt, ceil_sqrt_spec, div_toward_zero, lemma_ceil_div,
    lemma_ceil_sqrt_is_spec, lemma_ceil_sqrt_spec, lemma_trunc_div_bounds, trunc_div,
};
use crate::geometry::{Rect, Size};
use crate::layout::cells::{
    CANVAS_LIMIT, cell_left, cell_origin, cell_top, lemma_grid_holds_all, rows_for,
};
use crate::layout::{
    Selection, SquareSource, VisualSquare, WeightRule, all_wf, ascending_below,
    lemma_total_weight_bounded, lemma_total_weight_monotone, lemma_weight_sum_is_total,
    select_children, selected_indices, sum_weights, total_weight, weigh_children,
};

verus! {

/// Padding that each cell keeps free on every side.
pub const GRID_PADDING: i64 = 10000;

/// From this zoom factor on, the grid shows files beside directories.
pub const FILES_VISIBLE_ZOOM: i64 = 2000;

/// The children that the grid shows at this zoom: directories only while
/// the zoom is low, every child from `FILES_VISIBLE_ZOOM` on.
pub open spec fn grid_selection(zoom: int) -> Selection {
    if zoom >= FILES_VISIBLE_ZOOM {
        Selection::All
    } else {
        Selection::Directories
    }
}

/// Number of columns for `count` entries: the square root of `count` times
/// the canvas' aspect ratio, rounded up.
pub open spec fn grid_cols(count: int, canvas: Size) -> int {
    ceil_sqrt_spec(ceil_div_spec(count * canvas.width, canvas.height as int))
}

/// Number of rows for `count` entries.
pub open spec fn grid_rows(count: int, canvas: Size) -> int {
    rows_for(count, grid_cols(count, canvas))
}

/// The entry's share of the total times the number of entries, capped at
/// the total: what the size of the entry's square goes by, as a count of
/// parts of which `total` make a whole.
pub open spec fn capped_share(weight: int, count: int, total: int) -> int {
    if weight * count >= total {
        total
    } else {
        weight * count
    }
}

/// A length scaled by a half plus the capped share, that is by a factor
/// between 0.5 and 1.5, rounded toward zero.
pub open spec fn scaled_by_share(length: int, weight: int, count: int, total: int) -> int {
    trunc_div(length * (total + 2 * capped_share(weight, count, total)), 2 * total)
}

/// The rectangle of item `k`: the cell without its padding, scaled by the
/// entry's share and centred in the cell.
pub open spec fn grid_rect(
    k: int,
    cols: int,
    rows: int,
    canvas: Size,
    weight: int,
    count: int,
    total: int,
) -> Rect {
    let cell_width = canvas.width_units() / cols;
    let cell_height = canvas.height_units() / rows;
    let width = scaled_by_share(cell_width - 2 * GRID_PADDING, weight, count, total);
    let height = scaled_by_share(cell_height - 2 * GRID_PADDING, weight, count, total);
    Rect::spec_from_min_size(
        cell_left(k, cols, cell_width) + trunc_div(cell_width - width, 2),
        cell_top(k, cols, cell_height) + trunc_div(cell_height - height, 2),
        width,
        height,
    )
}

/// Total against which the grid measures each weight: one more than the sum
/// of the shown entries' weights.
pub open spec fn grid_total(children: Seq<DirectoryEntry>, entries: Seq<usize>) -> int {
    1 + total_weight(children, entries, WeightRule::Grid, entries.len())
}

/// The grid layout of a directory.
///
/// A root that is no directory, a canvas without area and a directory none
/// of whose children is shown give no squares. Otherwise there is one square
/// for each shown child, in the children's order, filling the grid row by
/// row.
pub open spec fn grid_layout_spec(root: DirectoryEntry, canvas: Size, zoom: int) -> Seq<
    VisualSquare,
> {
    let children = root.children@;
    let entries = selected_indices(children, grid_selection(zoom), children.len());
    let count = entries.len() as int;
    if !root.is_directory || canvas.is_empty() || count == 0 {
        Seq::empty()
    } else {
        let total = grid_total(children, entries);
        Seq::new(
            entries.len(),
            |k: int|
                {
                    let weight = WeightRule::Grid.weight(children[entries[k] as int]);
                    VisualSquare::spec_fresh(
                        SquareSource::Child(entries[k]),
                        grid_rect(
                            k,
                            grid_cols(count, canvas),
                            grid_rows(count, canvas),
                            canvas,
                            weight,
                            count,
                            total,
                        ),
                        (weight * SCALE) / total,
                    )
                },
        )
    }
}

/// Columns and rows of the grid for `count` entries on this canvas; `None`
/// where there is no entry or the canvas has no area.
pub fn grid_dimensions(count: usize, canvas: Size) -> (dims: Option<(u64, u64)>)
    ensures
        (count == 0 || canvas.is_empty()) <==> dims is None,
        dims matches Some(d) ==> {
            &&& d.0 == grid_cols(count as int, canvas)
            &&& d.1 == grid_rows(count as int, canvas)
            &&& d.0 >= 1
            &&& d.1 >= 1
            &&& d.0 * d.1 >= count
        },
{
    if count == 0 || canvas.width == 0 || canvas.height == 0 {
        return None;
    }
    assert(1 <= count * canvas.width <= 0x1_0000_0000_0000_0000_0000_0000) by (nonlinear_arith)
        requires
            1 <= count <= usize::MAX,
            1 <= canvas.width <= u32::MAX,
    ;
    let scaled: u128 = (count as u128) * (canvas.width as u128);
    proof {
        lemma_ceil_div(scaled as int, canvas.height as int);
        assert(ceil_div_spec(scaled as int, canvas.height as int) <= scaled) by (nonlinear_arith)
            requires
                scaled >= 1,
                canvas.height >= 1,
                (ceil_div_spec(scaled as int, canvas.height as int) - 1) * canvas.height < scaled,
        ;
    }
    let ratio: u128 = ceil_div(scaled, canvas.height as u128);
    let cols: u64 = ceil_sqrt(ratio);
    proof {
        lemma_ceil_sqrt_is_spec(ratio as int, cols as int);
        lemma_ceil_sqrt_spec(ratio as int);
        lemma_grid_holds_all(count as int, cols as int);
        lemma_ceil_div(count as int, cols as int);
        assert(rows_for(count as int, cols as int) <= count) by (nonlinear_arith)
            requires
                cols >= 1,
                (rows_for(count as int, cols as int) - 1) * cols < count,
        ;
    }
    let rows: u128 = ceil_div(count as u128, cols as u128);
    Some((cols, rows as u64))
}

/// Scaling by the share keeps the sign and at most doubles the size.
pub proof fn lemma_scaled_by_share(length: int, weight: int, count: int, total: int)
    requires
        weight >= 0,
        count >= 0,
        total >= 1,
    ensures
        0 <= capped_share(weight, count, total) <= total,
        length >= 0 ==> 0 <= scaled_by_share(length, weight, count, total) <= 2 * length,
        length <= 0 ==> 2 * length <= scaled_by_share(length, weight, count, total) <= 0,
{
    let share = capped_share(weight, count, total);
    assert(weight * count >= 0) by (nonlinear_arith)
        requires
            weight >= 0,
            count >= 0,
    ;
    let factor = total + 2 * share;
    if length >= 0 {
        assert(0 <= length * factor && (length * factor) / (2 * total) <= 2 * length)
            by (nonlinear_arith)
            requires
                length >= 0,
                0 < total <= factor <= 3 * total,
        ;
    } else {
        assert(0 <= (-length) * factor && ((-length) * factor) / (2 * total) <= 2 * (-length)
            && length * factor == -((-length) * factor) && length * factor < 0)
            by (nonlinear_arith)
            requires
                length < 0,
                0 < total <= factor <= 3 * total,
        ;
    }
}

/// A length scaled by a half plus the capped share.
pub fn scale_by_share(length: i64, weight: u64, count: usize, total: u64) -> (scaled: i64)
    requires
        -CANVAS_LIMIT <= length <= CANVAS_LIMIT,
        total >= 1,
    ensures
        scaled == scaled_by_share(length as int, weight as int, count as int, total as int),
{
    proof {
        lemma_scaled_by_share(length as int, weight as int, count as int, total as int);
    }
    assert(0 <= weight * count <= u128::MAX) by (nonlinear_arith)
        requires
            0 <= weight <= u64::MAX,
            0 <= count <= u64::MAX,
    ;
    let product: u128 = (weight as u128) * (count as u128);
    let share: u128 = if product >= total as u128 {
        total as u128
    } else {
        product
    };
    let factor: i128 = (total as i128) + 2 * (share as i128);
    assert(-0x400_0000_0000 * 0x3_0000_0000_0000_0000 <= length * factor <= 0x400_0000_0000
        * 0x3_0000_0000_0000_0000) by (nonlinear_arith)
        requires
            -0x400_0000_0000 <= length <= 0x400_0000_0000,
            0 <= factor <= 0x3_0000_0000_0000_0000,
    ;
    let scaled: i128 = ((length as i128) * factor) / (2 * (total as i128));
    scaled as i64
}

/// The rectangle of item `k` of a grid.
pub fn compute_grid_rect(
    k: usize,
    count: usize,
    cols: u64,
    rows: u64,
    canvas: Size,
    weight: u64,
    total: u64,
) -> (rect: Rect)
    requires
        k < count,
        cols >= 1,
        rows >= 1,
        cols * rows >= count,
        total >= 1,
    ensures
        rect == grid_rect(
            k as int,
            cols as int,
            rows as int,
            canvas,
            weight as int,
            count as int,
            total as int,
        ),
        rect.wf(),
{
    let width: i64 = (canvas.width as i64) * SCALE;
    let height: i64 = (canvas.height as i64) * SCALE;
    let (x, y) = cell_origin(k, count, cols, rows, width, height);
    let cell_width: i64 = ((width as u64) / cols) as i64;
    let cell_height: i64 = ((height as u64) / rows) as i64;
    assert(0 <= cell_width <= width && 0 <= cell_height <= height);
    proof {
        lemma_scaled_by_share(
            cell_width - 2 * GRID_PADDING,
            weight as int,
            count as int,
            total as int,
        );
        lemma_scaled_by_share(
            cell_height - 2 * GRID_PADDING,
            weight as int,
            count as int,
            total as int,
        );
    }
    let square_width: i64 = scale_by_share(cell_width - 2 * GRID_PADDING, weight, count, total);
    let square_height: i64 = scale_by_share(cell_height - 2 * GRID_PADDING, weight, count, total);
    proof {
        lemma_trunc_div_bounds(cell_width - square_width, 2);
        lemma_trunc_div_bounds(cell_height - square_height, 2);
    }
    let x_offset: i64 = div_toward_zero(cell_width - square_width, 2);
    let y_offset: i64 = div_toward_zero(cell_height - square_height, 2);
    Rect::from_min_size(x + x_offset, y + y_offset, square_width, square_height)
}

/// Lays the shown children of a directory out on a grid.
pub fn generate_grid_layout(root: &DirectoryEntry, canvas: Size, zoom: i64) -> (squares: Vec<
    VisualSquare,
>)
    requires
        root.weights_fit(),
    ensures
        squares@ == grid_layout_spec(*root, canvas, zoom as int),
        all_wf(squares@),
{
    let mut squares: Vec<VisualSquare> = Vec::new();
    if !root.is_directory {
        return squares;
    }
    let which = if zoom >= FILES_VISIBLE_ZOOM {
        Selection::All
    } else {
        Selection::Directories
    };
    let entries = select_children(&root.children, which);
    let count: usize = entries.len();
    let (cols, rows) = match grid_dimensions(count, canvas) {
        Some(dims) => dims,
        None => {
            return squares;
        },
    };
    let weights = weigh_children(&root.children, &entries, WeightRule::Grid);
    proof {
        lemma_weight_sum_is_total(
            root.children@,
            entries@,
            WeightRule::Grid,
            weights@,
            entries@.len(),
        );
        lemma_total_weight_bounded(root.children@, entries@, WeightRule::Grid, entries@.len());
    }
    let total: u64 = sum_weights(&weights) + 1;
    let ghost layout = grid_layout_spec(*root, canvas, zoom as int);
    let mut k: usize = 0;
    while k < count
        invariant
            count == entries@.len(),
            count >= 1,
            k <= count,
            !canvas.is_empty(),
            root.is_directory,
            entries@ == selected_indices(
                root.children@,
                grid_selection(zoom as int),
                root.children@.len(),
            ),
            ascending_below(entries@, root.children@.len() as int),
            cols == grid_cols(count as int, canvas),
            rows == grid_rows(count as int, canvas),
            cols >= 1,
            rows >= 1,
            cols * rows >= count,
            weights@.len() == count,
            forall|j: int|
                0 <= j < count ==> (#[trigger] weights@[j]) == WeightRule::Grid.weight(
                    root.children@[entries@[j] as int],
                ),
            total == grid_total(root.children@, entries@),
            layout == grid_layout_spec(*root, canvas, zoom as int),
            squares@.len() == k,
            forall|j: int| 0 <= j < k ==> squares@[j] == layout[j],
            all_wf(squares@),
        decreases count - k,
    {
        let weight: u64 = weights[k];
        proof {
            lemma_total_weight_monotone(
                root.children@,
                entries@,
                WeightRule::Grid,
                (k + 1) as nat,
                count as nat,
            );
            lemma_total_weight_bounded(root.children@, entries@, WeightRule::Grid, k as nat);
            assert(total_weight(root.children@, entries@, WeightRule::Grid, (k + 1) as nat)
                == total_weight(root.children@, entries@, WeightRule::Grid, k as nat) + weight);
            assert(weight < total);
            assert((weight * 1000) / (total as int) < 1000) by (nonlinear_arith)
                requires
                    0 <= weight < total,
            ;
        }
        let rect = compute_grid_rect(k, count, cols, rows, canvas, weight, total);
        let share: u128 = ((weight as u128) * 1000) / (total as u128);
        let square = VisualSquare::fresh(SquareSource::Child(entries[k]), rect, share as u64);
        assert(square == layout[k as int]);
        squares.push(square);
        k = k + 1;
    }
    assert(squares@ =~= layout);
    squares
}

} // verus!
