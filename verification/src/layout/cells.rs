//! Regular grids of cells, and bands of equally weighted squares laid out
//! on them.

use vstd::prelude::*;
use crate::fixed::{
    SCALE, ceil_div, ceil_div_spec, ceil_sqrt, ceil_sqrt_spec, lemma_ceil_div,
    lemma_ceil_sqrt_is_spec, lemma_ceil_sqrt_spec,
};
use crate::geometry::Rect;
use crate::layout::{SquareSource, VisualSquare, all_wf};

verus! {

/// No canvas is wider or taller than this many thousandths of a pixel.
pub const CANVAS_LIMIT: i64 = 0x400_0000_0000;

/// Left edge of the cell that holds item `k` of a grid with `cols` columns.
pub open spec fn cell_left(k: int, cols: int, cell_width: int) -> int {
    (k % cols) * cell_width
}

/// Top edge of the cell that holds item `k` of a grid with `cols` columns.
pub open spec fn cell_top(k: int, cols: int, cell_height: int) -> int {
    (k / cols) * cell_height
}

/// Rows needed to hold `count` items in `cols` columns.
pub open spec fn rows_for(count: int, cols: int) -> int {
    ceil_div_spec(count, cols)
}

/// A grid with at least one column has room for every item.
pub proof fn lemma_grid_holds_all(count: int, cols: int)
    requires
        count >= 0,
        cols >= 1,
    ensures
        cols * rows_for(count, cols) >= count,
        count >= 1 ==> rows_for(count, cols) >= 1,
        forall|k: int| 0 <= k < count ==> 0 <= #[trigger] (k / cols) < rows_for(count, cols),
{
    lemma_ceil_div(count, cols);
    let rows = rows_for(count, cols);
    assert(cols * rows == rows * cols) by (nonlinear_arith);
    assert forall|k: int| 0 <= k < count implies 0 <= #[trigger] (k / cols) < rows by {
        assert(0 <= k / cols < rows) by (nonlinear_arith)
            requires
                0 <= k < count,
                cols >= 1,
                rows * cols >= count,
        ;
    }
}

/// The cell of item `k` lies within the area that the grid divides.
pub proof fn lemma_cell_within(
    k: int,
    count: int,
    cols: int,
    rows: int,
    width: int,
    height: int,
)
    requires
        0 <= k < count,
        cols >= 1,
        rows >= 1,
        cols * rows >= count,
        width >= 0,
        height >= 0,
    ensures
        0 <= cell_left(k, cols, width / cols),
        cell_left(k, cols, width / cols) + width / cols <= width,
        0 <= cell_top(k, cols, height / rows),
        cell_top(k, cols, height / rows) + height / rows <= height,
        0 <= k % cols < cols,
        0 <= k / cols < rows,
{
    let cw = width / cols;
    let ch = height / rows;
    let col = k % cols;
    let row = k / cols;
    assert(0 <= col < cols);
    assert(0 <= row < rows) by (nonlinear_arith)
        requires
            0 <= k < count,
            cols >= 1,
            cols * rows >= count,
            row == k / cols,
    ;
    assert(0 <= cw && cw * cols <= width) by (nonlinear_arith)
        requires
            cw == width / cols,
            width >= 0,
            cols >= 1,
    ;
    assert(0 <= ch && ch * rows <= height) by (nonlinear_arith)
        requires
            ch == height / rows,
            height >= 0,
            rows >= 1,
    ;
    assert(0 <= col * cw && col * cw + cw <= cw * cols) by (nonlinear_arith)
        requires
            0 <= col < cols,
            cw >= 0,
    ;
    assert(0 <= row * ch && row * ch + ch <= ch * rows) by (nonlinear_arith)
        requires
            0 <= row < rows,
            ch >= 0,
    ;
}

/// Top-left corner of the cell that holds item `k`.
pub fn cell_origin(
    k: usize,
    count: usize,
    cols: u64,
    rows: u64,
    width: i64,
    height: i64,
) -> (origin: (i64, i64))
    requires
        k < count,
        cols >= 1,
        rows >= 1,
        cols * rows >= count,
        0 <= width <= CANVAS_LIMIT,
        0 <= height <= CANVAS_LIMIT,
    ensures
        origin.0 == cell_left(k as int, cols as int, width as int / cols as int),
        origin.1 == cell_top(k as int, cols as int, height as int / rows as int),
        0 <= origin.0,
        origin.0 + width as int / cols as int <= width,
        0 <= origin.1,
        origin.1 + height as int / rows as int <= height,
{
    proof {
        lemma_cell_within(
            k as int,
            count as int,
            cols as int,
            rows as int,
            width as int,
            height as int,
        );
    }
    let col: u64 = (k as u64) % cols;
    let row: u64 = (k as u64) / cols;
    let cell_width: u64 = (width as u64) / cols;
    let cell_height: u64 = (height as u64) / rows;
    let x: u64 = col * cell_width;
    let y: u64 = row * cell_height;
    (x as i64, y as i64)
}

/// Columns and rows of the most nearly square grid that holds `count` items.
pub fn square_grid(count: usize) -> (grid: (u64, u64))
    requires
        count >= 1,
    ensures
        grid.0 == ceil_sqrt_spec(count as int),
        grid.1 == rows_for(count as int, grid.0 as int),
        1 <= grid.0 <= count,
        1 <= grid.1 <= count,
        grid.0 * grid.1 >= count,
{
    let cols: u64 = ceil_sqrt(count as u128);
    proof {
        lemma_ceil_sqrt_is_spec(count as int, cols as int);
        lemma_ceil_sqrt_spec(count as int);
        lemma_grid_holds_all(count as int, cols as int);
        lemma_ceil_div(count as int, cols as int);
        assert(cols <= count) by (nonlinear_arith)
            requires
                cols >= 1,
                (cols - 1) * (cols - 1) < count,
        ;
        assert(rows_for(count as int, cols as int) <= count) by (nonlinear_arith)
            requires
                cols >= 1,
                (rows_for(count as int, cols as int) - 1) * cols < count,
        ;
    }
    let rows: u128 = ceil_div(count as u128, cols as u128);
    (cols, rows as u64)
}

/// The square that stands for `source` as item `k` of a band of `count`
/// equally weighted squares.
pub open spec fn band_square(
    source: SquareSource,
    k: int,
    count: int,
    width: int,
    band_height: int,
    top: int,
    padding: int,
) -> VisualSquare {
    let cols = ceil_sqrt_spec(count);
    let rows = rows_for(count, cols);
    let cell_width = width / cols;
    let cell_height = band_height / rows;
    VisualSquare::spec_fresh(
        source,
        Rect::spec_from_min_size(
            cell_left(k, cols, cell_width) + padding,
            top + cell_top(k, cols, cell_height) + padding,
            cell_width - 2 * padding,
            cell_height - 2 * padding,
        ),
        SCALE as int / count,
    )
}

/// A band of equally weighted squares, one for each source, packed row by
/// row into the most nearly square grid over a strip of the canvas.
pub open spec fn band_spec(
    sources: Seq<SquareSource>,
    width: int,
    band_height: int,
    top: int,
    padding: int,
) -> Seq<VisualSquare> {
    Seq::new(
        sources.len(),
        |k: int| band_square(sources[k], k, sources.len() as int, width, band_height, top, padding),
    )
}

/// Appends a band of equally weighted squares to `squares`.
pub fn push_band(
    squares: &mut Vec<VisualSquare>,
    sources: &Vec<SquareSource>,
    width: i64,
    band_height: i64,
    top: i64,
    padding: i64,
)
    requires
        0 <= width <= CANVAS_LIMIT,
        0 <= band_height <= CANVAS_LIMIT,
        0 <= top <= CANVAS_LIMIT,
        0 <= padding <= SCALE * SCALE,
        all_wf(old(squares)@),
    ensures
        final(squares)@ == old(squares)@ + band_spec(
            sources@,
            width as int,
            band_height as int,
            top as int,
            padding as int,
        ),
        all_wf(final(squares)@),
{
    let count: usize = sources.len();
    if count == 0 {
        assert(squares@ == old(squares)@ + band_spec(
            sources@,
            width as int,
            band_height as int,
            top as int,
            padding as int,
        ));
        return ;
    }
    let (cols, rows) = square_grid(count);
    let cell_width: i64 = ((width as u64) / cols) as i64;
    let cell_height: i64 = ((band_height as u64) / rows) as i64;
    let weight: u64 = 1000u64 / (count as u64);
    let ghost base = squares@;
    let ghost band = band_spec(
        sources@,
        width as int,
        band_height as int,
        top as int,
        padding as int,
    );
    let mut k: usize = 0;
    while k < count
        invariant
            count == sources@.len(),
            count >= 1,
            k <= count,
            cols == ceil_sqrt_spec(count as int),
            rows == rows_for(count as int, cols as int),
            1 <= cols <= count,
            1 <= rows <= count,
            cols * rows >= count,
            0 <= width <= CANVAS_LIMIT,
            0 <= band_height <= CANVAS_LIMIT,
            0 <= top <= CANVAS_LIMIT,
            0 <= padding <= SCALE * SCALE,
            cell_width == width as int / cols as int,
            cell_height == band_height as int / rows as int,
            weight == SCALE as int / count as int,
            band == band_spec(
                sources@,
                width as int,
                band_height as int,
                top as int,
                padding as int,
            ),
            squares@.len() == base.len() + k,
            forall|j: int| 0 <= j < base.len() ==> squares@[j] == base[j],
            forall|j: int| 0 <= j < k ==> squares@[base.len() + j] == band[j],
            all_wf(squares@),
        decreases count - k,
    {
        let (x, y) = cell_origin(k, count, cols, rows, width, band_height);
        assert(0 <= cell_width <= width && 0 <= cell_height <= band_height);
        let rect = Rect::from_min_size(
            x + padding,
            top + y + padding,
            cell_width - 2 * padding,
            cell_height - 2 * padding,
        );
        let square = VisualSquare::fresh(sources[k], rect, weight);
        assert(square == band[k as int]);
        squares.push(square);
        k = k + 1;
    }
    assert(squares@ =~= base + band);
}

} // verus!
