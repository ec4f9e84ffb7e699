//! What holds of every layout.

use vstd::prelude::*;
use crate::directory::DirectoryEntry;
use crate::fixed::{
    SCALE, ceil_div_spec, ceil_sqrt_spec, lemma_ceil_div, lemma_ceil_sqrt_spec, lemma_mul_div_le,
    lemma_mul_div_monotone, lemma_trunc_div_bounds,
};
use crate::geometry::{Point, Size};
use crate::layout::cells::{cell_left, cell_top, lemma_cell_within, lemma_grid_holds_all};
use crate::layout::detailed::{
    child_sources, detailed_layout_spec, file_sources, file_total, files_by_size,
    grouped_files_spec, grouping_applies, is_small, single_files_spec,
};
use crate::layout::grid::{
    GRID_PADDING, grid_cols, grid_layout_spec, grid_rect, grid_rows, grid_selection, grid_total,
    lemma_scaled_by_share, scaled_by_share,
};
use crate::layout::treemap::{
    child_weight, comes_before, cut_at, has_padded_area, lemma_weight_order, padded_area, prefix_weight,
    sliced_extent, slices_horizontally, treemap_layout_spec, treemap_rect, treemap_total,
    weight_order,
};
use crate::layout::{
    LayoutType, Selection, SquareSource, VisualSquare, WeightRule, ascending_below, layout_spec,
    lemma_selected_indices, lemma_total_weight_monotone, selected_indices, total_weight,
};

verus! {

/// A grid always has a cell for every entry: with at least one entry on a
/// canvas that has an area, there is at least one column and one row, and
/// columns times rows is no less than the number of entries.
pub proof fn law_grid_has_room(count: int, canvas: Size)
    requires
        count >= 1,
        !canvas.is_empty(),
    ensures
        grid_cols(count, canvas) >= 1,
        grid_rows(count, canvas) >= 1,
        grid_cols(count, canvas) * grid_rows(count, canvas) >= count,
{
    assert(count * canvas.width >= 1) by (nonlinear_arith)
        requires
            count >= 1,
            canvas.width >= 1,
    ;
    lemma_ceil_div(count * canvas.width, canvas.height as int);
    lemma_ceil_sqrt_spec(ceil_div_spec(count * canvas.width, canvas.height as int));
    lemma_grid_holds_all(count, grid_cols(count, canvas));
}

/// On a square canvas the grid has as many columns as the square root of
/// the number of entries, rounded up.
pub proof fn law_grid_on_square_canvas(count: int, canvas: Size)
    requires
        count >= 0,
        canvas.width == canvas.height,
        !canvas.is_empty(),
    ensures
        grid_cols(count, canvas) == ceil_sqrt_spec(count),
{
    let w = canvas.width as int;
    assert((count * w) % w == 0 && (count * w) / w == count) by (nonlinear_arith)
        requires
            w >= 1,
            count >= 0,
    ;
}

/// The cuts of a treemap never run backward, start at the leading edge of
/// the padded canvas and, where the children weigh anything, end at its far
/// edge.
pub proof fn lemma_cuts_ascend(children: Seq<DirectoryEntry>, canvas: Size, j: nat, k: nat)
    requires
        children.len() <= usize::MAX,
        has_padded_area(canvas),
        j <= k <= children.len(),
    ensures
        0 <= cut_at(
            canvas,
            prefix_weight(children, weight_order(children, children.len()), j),
            treemap_total(children),
        ) <= cut_at(
            canvas,
            prefix_weight(children, weight_order(children, children.len()), k),
            treemap_total(children),
        ) <= sliced_extent(canvas),
        cut_at(
            canvas,
            prefix_weight(children, weight_order(children, children.len()), 0),
            treemap_total(children),
        ) == 0,
        prefix_weight(children, weight_order(children, children.len()), children.len()) > 0
            ==> cut_at(
            canvas,
            prefix_weight(children, weight_order(children, children.len()), children.len()),
            treemap_total(children),
        ) == sliced_extent(canvas),
{
    let order = weight_order(children, children.len());
    let total = treemap_total(children);
    let n = children.len();
    lemma_weight_order(children, n);
    lemma_total_weight_monotone(children, order, WeightRule::Treemap, 0, j);
    lemma_total_weight_monotone(children, order, WeightRule::Treemap, j, k);
    lemma_total_weight_monotone(children, order, WeightRule::Treemap, k, n);
    lemma_total_weight_monotone(children, order, WeightRule::Treemap, 0, n);
    let pj = prefix_weight(children, order, j);
    let pk = prefix_weight(children, order, k);
    let pn = prefix_weight(children, order, n);
    assert(prefix_weight(children, order, 0) == 0);
    assert(0 <= pj <= pk <= pn <= total);
    lemma_mul_div_le(sliced_extent(canvas), pj, total);
    lemma_mul_div_le(sliced_extent(canvas), pk, total);
    lemma_mul_div_le(sliced_extent(canvas), pn, total);
    lemma_mul_div_le(sliced_extent(canvas), 0, total);
    lemma_mul_div_monotone(sliced_extent(canvas), pj, pk, total);
}

/// Below any cut but the first there is a strip that holds the distance
/// `d`: its own cut is beyond `d`, the one before it is not.
pub proof fn lemma_strip_exists(children: Seq<DirectoryEntry>, canvas: Size, d: int, upto: nat)
        -> (k: nat)
    requires
        children.len() <= usize::MAX,
        has_padded_area(canvas),
        upto <= children.len(),
        0 <= d < cut_at(
            canvas,
            prefix_weight(children, weight_order(children, children.len()), upto),
            treemap_total(children),
        ),
    ensures
        k < upto,
        cut_at(
            canvas,
            prefix_weight(children, weight_order(children, children.len()), k),
            treemap_total(children),
        ) <= d < cut_at(
            canvas,
            prefix_weight(children, weight_order(children, children.len()), k + 1),
            treemap_total(children),
        ),
    decreases upto,
{
    lemma_cuts_ascend(children, canvas, 0, upto);
    if upto == 0 {
        0
    } else {
        let before = cut_at(
            canvas,
            prefix_weight(children, weight_order(children, children.len()), (upto - 1) as nat),
            treemap_total(children),
        );
        if d < before {
            lemma_strip_exists(children, canvas, d, (upto - 1) as nat)
        } else {
            (upto - 1) as nat
        }
    }
}

/// The squares of a treemap tile the padded canvas without gap or overlap:
/// each lies within the padded canvas, and every point of the padded canvas
/// lies in one square and no other. This holds where the children weigh
/// anything at all; if all of them weigh nothing, every strip is empty.
pub proof fn law_treemap_tiles(root: DirectoryEntry, canvas: Size, p: Point)
    requires
        root.children@.len() <= usize::MAX,
        root.is_directory,
        root.children@.len() > 0,
        has_padded_area(canvas),
        prefix_weight(
            root.children@,
            weight_order(root.children@, root.children@.len()),
            root.children@.len(),
        ) > 0,
    ensures
        treemap_layout_spec(root, canvas).len() == root.children@.len(),
        forall|k: int|
            0 <= k < root.children@.len() ==> {
                let r = (#[trigger] treemap_layout_spec(root, canvas)[k]).rect;
                &&& padded_area(canvas).min_x <= r.min_x <= r.max_x <= padded_area(canvas).max_x
                &&& padded_area(canvas).min_y <= r.min_y <= r.max_y <= padded_area(canvas).max_y
            },
        padded_area(canvas).covers(p) ==> exists|k: int|
            0 <= k < root.children@.len() && (#[trigger] treemap_layout_spec(
                root,
                canvas,
            )[k]).rect.covers(p),
        forall|j: int, k: int|
            0 <= j < k < root.children@.len() ==> !((#[trigger] treemap_layout_spec(
                root,
                canvas,
            )[j]).rect.covers(p) && (#[trigger] treemap_layout_spec(root, canvas)[k]).rect.covers(
                p,
            )),
{
    let children = root.children@;
    let n = children.len();
    let layout = treemap_layout_spec(root, canvas);
    let area = padded_area(canvas);
    assert forall|k: int| 0 <= k < n implies {
        let r = (#[trigger] layout[k]).rect;
        &&& area.min_x <= r.min_x <= r.max_x <= area.max_x
        &&& area.min_y <= r.min_y <= r.max_y <= area.max_y
    } by {
        lemma_cuts_ascend(children, canvas, k as nat, (k + 1) as nat);
        assert(layout[k].rect == treemap_rect(children, canvas, k));
    }
    if area.covers(p) {
        let d = if slices_horizontally(canvas) {
            p.x - area.min_x
        } else {
            p.y - area.min_y
        };
        lemma_cuts_ascend(children, canvas, 0, n);
        let k = lemma_strip_exists(children, canvas, d, n);
        lemma_cuts_ascend(children, canvas, k, k + 1);
        assert(layout[k as int].rect == treemap_rect(children, canvas, k as int));
        assert(layout[k as int].rect.covers(p));
    }
    assert forall|j: int, k: int| 0 <= j < k < n implies !((#[trigger] layout[j]).rect.covers(p)
        && (#[trigger] layout[k]).rect.covers(p)) by {
        lemma_cuts_ascend(children, canvas, j as nat, (j + 1) as nat);
        lemma_cuts_ascend(children, canvas, (j + 1) as nat, k as nat);
        lemma_cuts_ascend(children, canvas, k as nat, (k + 1) as nat);
        assert(layout[j].rect == treemap_rect(children, canvas, j));
        assert(layout[k].rect == treemap_rect(children, canvas, k));
    }
}

/// The grid has one square for each child that it shows and no other: each
/// shown child has a square, each square stands for a shown child, and no
/// two squares stand for the same child.
pub proof fn law_grid_one_square_per_child(root: DirectoryEntry, canvas: Size, zoom: int)
    requires
        root.children@.len() <= usize::MAX,
        root.is_directory,
        !canvas.is_empty(),
    ensures
        forall|i: int|
            0 <= i < root.children@.len() && grid_selection(zoom).takes(
                #[trigger] root.children@[i],
            ) ==> has_square(grid_layout_spec(root, canvas, zoom), SquareSource::Child(i as usize)),
        forall|k: int|
            0 <= k < grid_layout_spec(root, canvas, zoom).len() ==> shows_child(
                root.children@,
                grid_selection(zoom),
                (#[trigger] grid_layout_spec(root, canvas, zoom)[k]).source,
            ),
        forall|j: int, k: int|
            0 <= j < k < grid_layout_spec(root, canvas, zoom).len() ==> (#[trigger] grid_layout_spec(
                root,
                canvas,
                zoom,
            )[j]).source != (#[trigger] grid_layout_spec(root, canvas, zoom)[k]).source,
{
    let children = root.children@;
    let which = grid_selection(zoom);
    let entries = selected_indices(children, which, children.len());
    let layout = grid_layout_spec(root, canvas, zoom);
    lemma_selected_indices(children, which, children.len());
    assert forall|i: int| 0 <= i < children.len() && which.takes(#[trigger] children[i]) implies has_square(
        layout,
        SquareSource::Child(i as usize),
    ) by {
        assert(entries.contains(i as usize));
        let k = choose|k: int| 0 <= k < entries.len() && entries[k] == i as usize;
        assert(layout[k].source == SquareSource::Child(i as usize));
    }
    assert forall|k: int| 0 <= k < layout.len() implies shows_child(
        children,
        which,
        (#[trigger] layout[k]).source,
    ) by {
        assert(layout[k].source == SquareSource::Child(entries[k]));
    }
    assert forall|j: int, k: int| 0 <= j < k < layout.len() implies (#[trigger] layout[j]).source
        != (#[trigger] layout[k]).source by {
        assert(layout[j].source == SquareSource::Child(entries[j]));
        assert(layout[k].source == SquareSource::Child(entries[k]));
    }
}

/// The treemap has one square for each child and no other.
pub proof fn law_treemap_one_square_per_child(root: DirectoryEntry, canvas: Size)
    requires
        root.children@.len() <= usize::MAX,
        root.is_directory,
        has_padded_area(canvas),
    ensures
        treemap_layout_spec(root, canvas).len() == root.children@.len(),
        forall|i: usize|
            i < root.children@.len() ==> #[trigger] has_square(
                treemap_layout_spec(root, canvas),
                SquareSource::Child(i),
            ),
        forall|k: int|
            0 <= k < root.children@.len() ==> shows_child(
                root.children@,
                Selection::All,
                (#[trigger] treemap_layout_spec(root, canvas)[k]).source,
            ),
        forall|j: int, k: int|
            0 <= j < k < root.children@.len() ==> (#[trigger] treemap_layout_spec(
                root,
                canvas,
            )[j]).source != (#[trigger] treemap_layout_spec(root, canvas)[k]).source,
{
    let children = root.children@;
    let order = weight_order(children, children.len());
    let layout = treemap_layout_spec(root, canvas);
    lemma_weight_order(children, children.len());
    assert forall|i: usize| i < children.len() implies #[trigger] has_square(
        layout,
        SquareSource::Child(i),
    ) by {
        assert(order.contains(i));
        let k = choose|k: int| 0 <= k < order.len() && order[k] == i;
        assert(layout[k].source == SquareSource::Child(i));
    }
    assert forall|k: int| 0 <= k < children.len() implies shows_child(
        children,
        Selection::All,
        (#[trigger] layout[k]).source,
    ) by {
        assert(layout[k].source == SquareSource::Child(order[k]));
    }
    assert forall|j: int, k: int| 0 <= j < k < children.len() implies (#[trigger] layout[j]).source
        != (#[trigger] layout[k]).source by {
        assert(layout[j].source == SquareSource::Child(order[j]));
        assert(layout[k].source == SquareSource::Child(order[k]));
    }
}

/// Splitting a list of files by size loses none and doubles none: each part
/// is ascending, holds only listed files of its kind, and holds every one.
pub proof fn lemma_files_by_size(
    children: Seq<DirectoryEntry>,
    files: Seq<usize>,
    total: int,
    small: bool,
    upto: nat,
)
    requires
        upto <= files.len(),
        ascending_below(files, children.len() as int),
    ensures
        ascending_below(
            files_by_size(children, files, total, small, upto),
            if upto == 0 {
                0
            } else {
                files[upto - 1] + 1
            },
        ),
        files_by_size(children, files, total, small, upto).len() <= upto,
        forall|k: int|
            0 <= k < files_by_size(children, files, total, small, upto).len() ==> {
                let f = #[trigger] files_by_size(children, files, total, small, upto)[k];
                files.contains(f) && is_small(children[f as int], total) == small
            },
        forall|k: int|
            0 <= k < upto && is_small(children[(#[trigger] files[k]) as int], total) == small
                ==> files_by_size(children, files, total, small, upto).contains(files[k]),
    decreases upto,
{
    if upto > 0 {
        lemma_files_by_size(children, files, total, small, (upto - 1) as nat);
        let rest = files_by_size(children, files, total, small, (upto - 1) as nat);
        let part = files_by_size(children, files, total, small, upto);
        let last = files[upto - 1];
        if is_small(children[last as int], total) == small {
            assert(part == rest.push(last));
            assert(part[part.len() - 1] == last);
            assert forall|k: int|
                0 <= k < upto && is_small(children[(#[trigger] files[k]) as int], total)
                    == small implies part.contains(files[k]) by {
                if k < upto - 1 {
                    let j = choose|j: int| 0 <= j < rest.len() && rest[j] == files[k];
                    assert(part[j] == files[k]);
                } else {
                    assert(part[part.len() - 1] == files[k]);
                }
            }
        } else {
            assert(part == rest);
        }
        assert forall|j: int, k: int| 0 <= j < k < part.len() implies part[j] < part[k] by {
            if k < rest.len() {
            } else {
                if upto > 1 {
                    assert(rest[j] < files[upto - 2] + 1);
                }
            }
        }
    }
}

/// What the squares of the detailed layout stand for, in order: the
/// directories, the files drawn on their own, then the bucket if it holds
/// anything.
pub open spec fn detailed_sources(children: Seq<DirectoryEntry>, zoom: int) -> Seq<SquareSource> {
    child_sources(selected_indices(children, Selection::Directories, children.len()))
        + file_sources(children, zoom)
}

/// The detailed layout has one square for each of its sources, in order.
pub proof fn lemma_detailed_sources(root: DirectoryEntry, canvas: Size, zoom: int)
    requires
        root.is_directory,
        root.children@.len() > 0,
        !canvas.is_empty(),
    ensures
        detailed_layout_spec(root, canvas, zoom).len() == detailed_sources(
            root.children@,
            zoom,
        ).len(),
        forall|k: int|
            0 <= k < detailed_layout_spec(root, canvas, zoom).len() ==> (#[trigger] detailed_layout_spec(
                root,
                canvas,
                zoom,
            )[k]).source == detailed_sources(root.children@, zoom)[k],
{
}

/// The detailed layout draws every entry once or gathers it: there is one
/// square for each directory; each file has either a square of its own or a
/// place in the bucket, never both; the bucket has a square if and only if
/// it holds a file; no two squares stand for the same thing; and the bucket
/// holds exactly the files whose share is below one percent where grouping
/// applies, and nothing where it does not.
pub proof fn law_detailed_one_square_per_entry(root: DirectoryEntry, canvas: Size, zoom: int)
    requires
        root.children@.len() <= usize::MAX,
        root.is_directory,
        root.children@.len() > 0,
        !canvas.is_empty(),
    ensures
        detailed_layout_spec(root, canvas, zoom).len() == selected_indices(
            root.children@,
            Selection::Directories,
            root.children@.len(),
        ).len() + single_files_spec(root.children@, zoom).len() + (if grouped_files_spec(
            root.children@,
            zoom,
        ).len() > 0 {
            1int
        } else {
            0int
        }),
        forall|i: int|
            0 <= i < root.children@.len() && (#[trigger] root.children@[i]).is_directory
                ==> has_square(detailed_layout_spec(root, canvas, zoom), SquareSource::Child(i as usize)),
        forall|i: int|
            0 <= i < root.children@.len() && !(#[trigger] root.children@[i]).is_directory
                ==> (has_square(
                detailed_layout_spec(root, canvas, zoom),
                SquareSource::Child(i as usize),
            ) != grouped_files_spec(root.children@, zoom).contains(i as usize)),
        has_square(detailed_layout_spec(root, canvas, zoom), SquareSource::Others)
            == (grouped_files_spec(root.children@, zoom).len() > 0),
        forall|j: int, k: int|
            0 <= j < k < detailed_layout_spec(root, canvas, zoom).len()
                ==> (#[trigger] detailed_layout_spec(root, canvas, zoom)[j]).source
                != (#[trigger] detailed_layout_spec(root, canvas, zoom)[k]).source,
        forall|i: int|
            0 <= i < root.children@.len() ==> (grouped_files_spec(root.children@, zoom).contains(
                i as usize,
            ) <==> !(#[trigger] root.children@[i]).is_directory && grouping_applies(
                zoom,
                selected_indices(root.children@, Selection::Files, root.children@.len()).len() as int,
            ) && is_small(root.children@[i], file_total(root.children@))),
{
    let children = root.children@;
    let n = children.len();
    let layout = detailed_layout_spec(root, canvas, zoom);
    let dirs = selected_indices(children, Selection::Directories, n);
    let files = selected_indices(children, Selection::Files, n);
    let singles = single_files_spec(children, zoom);
    let grouped = grouped_files_spec(children, zoom);
    let sources = detailed_sources(children, zoom);
    let total = file_total(children);
    let applies = grouping_applies(zoom, files.len() as int);
    lemma_detailed_sources(root, canvas, zoom);
    lemma_selected_indices(children, Selection::Directories, n);
    lemma_selected_indices(children, Selection::Files, n);
    lemma_files_by_size(children, files, total, true, files.len());
    lemma_files_by_size(children, files, total, false, files.len());
    // The singles are an ascending list of files; the grouped files too.
    assert(ascending_below(singles, n as int));
    assert(ascending_below(grouped, n as int));
    assert forall|k: int| 0 <= k < singles.len() implies files.contains(#[trigger] singles[k])
        && (applies ==> !is_small(children[singles[k] as int], total)) by {
        if !applies {
            assert(singles[k] == files[k]);
        }
    }
    assert forall|k: int| 0 <= k < singles.len() implies !children[(#[trigger] singles[k]) as int].is_directory by {
        assert(files.contains(singles[k]));
        let j = choose|j: int| 0 <= j < files.len() && files[j] == singles[k];
        assert(Selection::Files.takes(children[files[j] as int]));
    }
    assert forall|k: int| 0 <= k < grouped.len() implies !children[(#[trigger] grouped[k]) as int].is_directory
        && is_small(children[grouped[k] as int], total) && applies by {
        assert(files.contains(grouped[k]));
        let j = choose|j: int| 0 <= j < files.len() && files[j] == grouped[k];
        assert(Selection::Files.takes(children[files[j] as int]));
    }
    // Shape of the source list.
    assert(sources.len() == dirs.len() + singles.len() + (if grouped.len() > 0 {
        1int
    } else {
        0int
    }));
    assert forall|k: int| 0 <= k < dirs.len() implies sources[k] == SquareSource::Child(dirs[k]) by {}
    assert forall|k: int| 0 <= k < singles.len() implies sources[dirs.len() + k]
        == SquareSource::Child(singles[k]) by {}
    if grouped.len() > 0 {
        assert(sources[(dirs.len() + singles.len()) as int] == SquareSource::Others);
    }
    // Directories.
    assert forall|i: int| 0 <= i < n && (#[trigger] children[i]).is_directory implies has_square(
        layout,
        SquareSource::Child(i as usize),
    ) by {
        assert(Selection::Directories.takes(children[i]));
        assert(dirs.contains(i as usize));
        let k = choose|k: int| 0 <= k < dirs.len() && dirs[k] == i as usize;
        assert(layout[k].source == SquareSource::Child(i as usize));
    }
    // Files.
    assert forall|i: int| 0 <= i < n && !(#[trigger] children[i]).is_directory implies (has_square(
        layout,
        SquareSource::Child(i as usize),
    ) != grouped.contains(i as usize)) by {
        assert(Selection::Files.takes(children[i]));
        assert(files.contains(i as usize));
        let f = choose|f: int| 0 <= f < files.len() && files[f] == i as usize;
        if applies && is_small(children[i], total) {
            assert(grouped.contains(files[f]));
            if has_square(layout, SquareSource::Child(i as usize)) {
                let k = choose|k: int|
                    0 <= k < layout.len() && (#[trigger] layout[k]).source == SquareSource::Child(
                        i as usize,
                    );
                assert(sources[k] == SquareSource::Child(i as usize));
                if k < dirs.len() {
                    assert(Selection::Directories.takes(children[dirs[k] as int]));
                } else if k < dirs.len() + singles.len() {
                    assert(singles[k - dirs.len()] == i as usize);
                }
            }
        } else {
            if applies {
                assert(singles.contains(files[f]));
            } else {
                assert(singles[f] == i as usize);
            }
            let k = choose|k: int| 0 <= k < singles.len() && singles[k] == i as usize;
            assert(layout[dirs.len() + k].source == SquareSource::Child(i as usize));
            if grouped.contains(i as usize) {
                let g = choose|g: int| 0 <= g < grouped.len() && grouped[g] == i as usize;
                assert(is_small(children[grouped[g] as int], total) && applies);
            }
        }
    }
    // The bucket.
    if grouped.len() > 0 {
        assert(layout[(dirs.len() + singles.len()) as int].source == SquareSource::Others);
    } else if has_square(layout, SquareSource::Others) {
        let k = choose|k: int|
            0 <= k < layout.len() && (#[trigger] layout[k]).source == SquareSource::Others;
        assert(sources[k] == SquareSource::Others);
    }
    // No source twice.
    assert forall|j: int, k: int| 0 <= j < k < layout.len() implies (#[trigger] layout[j]).source
        != (#[trigger] layout[k]).source by {
        assert(layout[j].source == sources[j] && layout[k].source == sources[k]);
        if k < dirs.len() {
        } else if k < dirs.len() + singles.len() {
            if j < dirs.len() {
                assert(Selection::Directories.takes(children[dirs[j] as int]));
                assert(!children[singles[k - dirs.len()] as int].is_directory);
            } else {
                assert(singles[j - dirs.len()] < singles[k - dirs.len()]);
            }
        }
    }
    // What the bucket holds.
    assert forall|i: int| 0 <= i < n implies (grouped.contains(i as usize) <==> !(#[trigger] children[i]).is_directory
        && applies && is_small(children[i], total)) by {
        if grouped.contains(i as usize) {
            let g = choose|g: int| 0 <= g < grouped.len() && grouped[g] == i as usize;
            assert(!children[grouped[g] as int].is_directory);
        }
        if !children[i].is_directory && applies && is_small(children[i], total) {
            assert(Selection::Files.takes(children[i]));
            assert(files.contains(i as usize));
            let f = choose|f: int| 0 <= f < files.len() && files[f] == i as usize;
            assert(grouped.contains(files[f]));
        }
    }
}

/// Whether `source` names a child that the selection takes.
pub open spec fn shows_child(
    children: Seq<DirectoryEntry>,
    which: Selection,
    source: SquareSource,
) -> bool {
    match source {
        SquareSource::Child(i) => i < children.len() && which.takes(children[i as int]),
        SquareSource::Others => false,
    }
}

/// Whether some square of the list stands for `source`.
pub open spec fn has_square(squares: Seq<VisualSquare>, source: SquareSource) -> bool {
    exists|k: int| 0 <= k < squares.len() && (#[trigger] squares[k]).source == source
}

/// One listed child weighs no more than all of them together.
pub proof fn lemma_weight_within_total(
    children: Seq<DirectoryEntry>,
    indices: Seq<usize>,
    rule: WeightRule,
    k: int,
)
    requires
        0 <= k < indices.len(),
    ensures
        0 <= rule.weight(children[indices[k] as int]) <= total_weight(
            children,
            indices,
            rule,
            indices.len(),
        ),
{
    rule.lemma_weight_capped(children[indices[k] as int]);
    lemma_total_weight_monotone(children, indices, rule, 0, k as nat);
    lemma_total_weight_monotone(children, indices, rule, (k + 1) as nat, indices.len());
    assert(total_weight(children, indices, rule, (k + 1) as nat) == total_weight(
        children,
        indices,
        rule,
        k as nat,
    ) + rule.weight(children[indices[k] as int]));
}

/// In every layout the weight of a square is a share: it lies between 0
/// and 1.
pub proof fn law_size_weights_are_shares(
    root: DirectoryEntry,
    zoom: int,
    layout_type: LayoutType,
    canvas: Size,
)
    requires
        root.children@.len() <= usize::MAX,
    ensures
        forall|k: int|
            0 <= k < layout_spec(root, zoom, layout_type, canvas).len() ==> (#[trigger] layout_spec(
                root,
                zoom,
                layout_type,
                canvas,
            )[k]).size_weight <= SCALE,
{
    let children = root.children@;
    let layout = layout_spec(root, zoom, layout_type, canvas);
    assert forall|k: int| 0 <= k < layout.len() implies (#[trigger] layout[k]).size_weight
        <= SCALE by {
        match layout_type {
            LayoutType::Grid => {
                let entries = selected_indices(children, grid_selection(zoom), children.len());
                lemma_weight_within_total(children, entries, WeightRule::Grid, k);
                let weight = WeightRule::Grid.weight(children[entries[k] as int]);
                let total = grid_total(children, entries);
                assert(0 <= (weight * 1000) / total < 1000) by (nonlinear_arith)
                    requires
                        0 <= weight < total,
                ;
            },
            LayoutType::Treemap => {
                let order = weight_order(children, children.len());
                lemma_weight_order(children, children.len());
                lemma_weight_within_total(children, order, WeightRule::Treemap, k);
                let weight = child_weight(children, order[k] as int);
                let total = treemap_total(children);
                assert(0 <= (weight * 1000) / total <= 1000) by (nonlinear_arith)
                    requires
                        0 <= weight <= total,
                        total >= 1,
                ;
            },
            LayoutType::Detailed => {
                lemma_detailed_sources(root, canvas, zoom);
                let directories = selected_indices(
                    children,
                    Selection::Directories,
                    children.len(),
                );
                let count = if k < directories.len() {
                    directories.len()
                } else {
                    file_sources(children, zoom).len()
                };
                assert(0 <= 1000int / (count as int) <= 1000) by (nonlinear_arith)
                    requires
                        count >= 1,
                ;
            },
            LayoutType::ForceDirected => {
                let count = children.len() as int;
                let inner = children[k].children@.len() as int;
                assert(0 <= 1000int / count <= 1000) by (nonlinear_arith)
                    requires
                        count >= 1,
                ;
                if inner < count {
                    assert(0 <= (inner * 1000) / count <= 1000) by (nonlinear_arith)
                        requires
                            0 <= inner < count,
                    ;
                }
            },
        }
    }
}

/// The squares of every layout are at rest: none is selected or hovered
/// over, none has a previous rectangle, and none has made any progress.
pub proof fn law_layouts_are_at_rest(
    root: DirectoryEntry,
    zoom: int,
    layout_type: LayoutType,
    canvas: Size,
)
    ensures
        forall|k: int|
            0 <= k < layout_spec(root, zoom, layout_type, canvas).len() ==> {
                let square = #[trigger] layout_spec(root, zoom, layout_type, canvas)[k];
                &&& !square.selected
                &&& !square.hovered
                &&& square.prev_rect is None
                &&& square.animation_progress == 0
            },
{
}

/// Every file that is gathered into the bucket is a child of the directory.
pub proof fn lemma_grouped_files_in_range(children: Seq<DirectoryEntry>, zoom: int)
    requires
        children.len() <= usize::MAX,
    ensures
        forall|k: int|
            0 <= k < grouped_files_spec(children, zoom).len() ==> (#[trigger] grouped_files_spec(
                children,
                zoom,
            )[k]) < children.len(),
{
    let files = selected_indices(children, Selection::Files, children.len());
    lemma_selected_indices(children, Selection::Files, children.len());
    lemma_files_by_size(children, files, file_total(children), true, files.len());
}

/// Every square of the grid is centred in its cell, and the cells lie on
/// the canvas: square `k` belongs to the cell in column `k % cols` and row
/// `k / cols`, which is one of the rows; the cell lies within the canvas;
/// and the middle of the square is the middle of the cell, but for the
/// rounding of half a thousandth.
pub proof fn law_grid_squares_are_centred(root: DirectoryEntry, canvas: Size, zoom: int, k: int)
    requires
        root.children@.len() <= usize::MAX,
        0 <= k < grid_layout_spec(root, canvas, zoom).len(),
    ensures
        ({
            let count = grid_layout_spec(root, canvas, zoom).len() as int;
            let cols = grid_cols(count, canvas);
            let rows = grid_rows(count, canvas);
            let cell_width = canvas.width_units() / cols;
            let cell_height = canvas.height_units() / rows;
            let left = cell_left(k, cols, cell_width);
            let top = cell_top(k, cols, cell_height);
            let rect = grid_layout_spec(root, canvas, zoom)[k].rect;
            &&& 0 <= k % cols < cols
            &&& 0 <= k / cols < rows
            &&& 0 <= left && left + cell_width <= canvas.width_units()
            &&& 0 <= top && top + cell_height <= canvas.height_units()
            &&& -1 <= (rect.min_x + rect.max_x) - (2 * left + cell_width) <= 1
            &&& -1 <= (rect.min_y + rect.max_y) - (2 * top + cell_height) <= 1
        }),
{
    let children = root.children@;
    let entries = selected_indices(children, grid_selection(zoom), children.len());
    let count = entries.len() as int;
    let cols = grid_cols(count, canvas);
    let rows = grid_rows(count, canvas);
    let width = canvas.width_units();
    let height = canvas.height_units();
    let cell_width = width / cols;
    let cell_height = height / rows;
    let weight = WeightRule::Grid.weight(children[entries[k] as int]);
    let total = grid_total(children, entries);
    law_grid_has_room(count, canvas);
    lemma_cell_within(k, count, cols, rows, width, height);
    lemma_selected_indices(children, grid_selection(zoom), children.len());
    lemma_weight_within_total(children, entries, WeightRule::Grid, k);
    lemma_scaled_by_share(cell_width - 2 * GRID_PADDING, weight, count, total);
    lemma_scaled_by_share(cell_height - 2 * GRID_PADDING, weight, count, total);
    let square_width = scaled_by_share(cell_width - 2 * GRID_PADDING, weight, count, total);
    let square_height = scaled_by_share(cell_height - 2 * GRID_PADDING, weight, count, total);
    lemma_trunc_div_bounds(cell_width - square_width, 2);
    lemma_trunc_div_bounds(cell_height - square_height, 2);
    assert(grid_layout_spec(root, canvas, zoom)[k].rect == grid_rect(
        k,
        cols,
        rows,
        canvas,
        weight,
        count,
        total,
    ));
}

/// The weights of the first `upto` squares, taken together.
pub open spec fn share_sum(squares: Seq<VisualSquare>, upto: nat) -> int
    decreases upto,
{
    if upto == 0 || upto > squares.len() {
        0
    } else {
        share_sum(squares, (upto - 1) as nat) + squares[upto - 1].size_weight
    }
}

/// Shares that are rounded down add up to no more than the exact shares,
/// and fall short of them by less than one thousandth for each.
pub proof fn lemma_shares_add_up(
    children: Seq<DirectoryEntry>,
    indices: Seq<usize>,
    rule: WeightRule,
    total: int,
    squares: Seq<VisualSquare>,
    upto: nat,
)
    requires
        upto <= indices.len(),
        squares.len() == indices.len(),
        total >= 1,
        total_weight(children, indices, rule, indices.len()) <= total,
        forall|k: int|
            0 <= k < indices.len() ==> (#[trigger] squares[k]).size_weight == (rule.weight(
                children[indices[k] as int],
            ) * SCALE) / total,
    ensures
        total * share_sum(squares, upto) <= SCALE * total_weight(children, indices, rule, upto),
        total * share_sum(squares, upto) >= SCALE * total_weight(children, indices, rule, upto)
            - upto * total,
        upto > 0 ==> total * share_sum(squares, upto) > SCALE * total_weight(
            children,
            indices,
            rule,
            upto,
        ) - upto * total,
        0 <= share_sum(squares, upto),
    decreases upto,
{
    if upto > 0 {
        lemma_shares_add_up(children, indices, rule, total, squares, (upto - 1) as nat);
        let weight = rule.weight(children[indices[upto - 1] as int]);
        let share = squares[upto - 1].size_weight as int;
        let before = share_sum(squares, (upto - 1) as nat);
        rule.lemma_weight_capped(children[indices[upto - 1] as int]);
        assert(total * share <= 1000 * weight < total * share + total && share >= 0)
            by (nonlinear_arith)
            requires
                share == (weight * 1000) / total,
                weight >= 0,
                total >= 1,
        ;
        assert(total * (before + share) == total * before + total * share) by (nonlinear_arith);
        assert(upto * total == (upto - 1) * total + total) by (nonlinear_arith);
    } else {
        assert(total * 0 == 0);
        assert(upto * total == 0) by (nonlinear_arith)
            requires
                upto == 0,
        ;
    }
}

/// In the grid and in the treemap the weights of the squares add up to no
/// more than 1; in the treemap, where the children weigh anything, they
/// fall short of 1 by less than one thousandth for each square.
pub proof fn law_shares_add_up_to_one(
    root: DirectoryEntry,
    zoom: int,
    layout_type: LayoutType,
    canvas: Size,
)
    requires
        root.children@.len() <= usize::MAX,
        layout_type == LayoutType::Grid || layout_type == LayoutType::Treemap,
    ensures
        0 <= share_sum(
            layout_spec(root, zoom, layout_type, canvas),
            layout_spec(root, zoom, layout_type, canvas).len(),
        ) <= SCALE,
        layout_type == LayoutType::Treemap && layout_spec(root, zoom, layout_type, canvas).len()
            > 0 && prefix_weight(
            root.children@,
            weight_order(root.children@, root.children@.len()),
            root.children@.len(),
        ) > 0 ==> share_sum(
            layout_spec(root, zoom, layout_type, canvas),
            layout_spec(root, zoom, layout_type, canvas).len(),
        ) > SCALE - layout_spec(root, zoom, layout_type, canvas).len(),
{
    let children = root.children@;
    let layout = layout_spec(root, zoom, layout_type, canvas);
    let m = layout.len();
    law_size_weights_are_shares(root, zoom, layout_type, canvas);
    if m > 0 {
        if layout_type == LayoutType::Grid {
            let entries = selected_indices(children, grid_selection(zoom), children.len());
            let total = grid_total(children, entries);
            lemma_selected_indices(children, grid_selection(zoom), children.len());
            lemma_total_weight_monotone(children, entries, WeightRule::Grid, 0, entries.len());
            assert forall|k: int| 0 <= k < entries.len() implies (#[trigger] layout[k]).size_weight
                == (WeightRule::Grid.weight(children[entries[k] as int]) * SCALE) / total by {
                lemma_weight_within_total(children, entries, WeightRule::Grid, k);
                let weight = WeightRule::Grid.weight(children[entries[k] as int]);
                assert(0 <= (weight * 1000) / total < 1000) by (nonlinear_arith)
                    requires
                        0 <= weight < total,
                ;
            }
            lemma_shares_add_up(children, entries, WeightRule::Grid, total, layout, m);
            let sum = share_sum(layout, m);
            let weights = total_weight(children, entries, WeightRule::Grid, m);
            assert(sum <= 1000) by (nonlinear_arith)
                requires
                    total * sum <= 1000 * weights,
                    0 <= weights < total,
            ;
        } else {
            let order = weight_order(children, children.len());
            let total = treemap_total(children);
            lemma_weight_order(children, children.len());
            lemma_total_weight_monotone(children, order, WeightRule::Treemap, 0, order.len());
            assert forall|k: int| 0 <= k < order.len() implies (#[trigger] layout[k]).size_weight
                == (WeightRule::Treemap.weight(children[order[k] as int]) * SCALE) / total by {
                lemma_weight_within_total(children, order, WeightRule::Treemap, k);
                let weight = child_weight(children, order[k] as int);
                assert(0 <= (weight * 1000) / total <= 1000) by (nonlinear_arith)
                    requires
                        0 <= weight <= total,
                        total >= 1,
                ;
            }
            lemma_shares_add_up(children, order, WeightRule::Treemap, total, layout, m);
            let sum = share_sum(layout, m);
            let weights = prefix_weight(children, order, m);
            assert(sum <= 1000) by (nonlinear_arith)
                requires
                    total * sum <= 1000 * weights,
                    0 <= weights <= total,
                    total >= 1,
            ;
            if weights > 0 {
                assert(sum > 1000 - m) by (nonlinear_arith)
                    requires
                        total * sum > 1000 * weights - m * total,
                        weights == total,
                        total >= 1,
                ;
            }
        }
    }
}

/// The squares of a treemap come heaviest first: the weight never grows
/// from one square to the next.
pub proof fn law_treemap_weights_descend(root: DirectoryEntry, canvas: Size, j: int, k: int)
    requires
        root.children@.len() <= usize::MAX,
        0 <= j <= k < treemap_layout_spec(root, canvas).len(),
    ensures
        treemap_layout_spec(root, canvas)[j].size_weight >= treemap_layout_spec(
            root,
            canvas,
        )[k].size_weight,
{
    let children = root.children@;
    let order = weight_order(children, children.len());
    let total = treemap_total(children);
    lemma_weight_order(children, children.len());
    lemma_weight_within_total(children, order, WeightRule::Treemap, j);
    lemma_weight_within_total(children, order, WeightRule::Treemap, k);
    lemma_total_weight_monotone(children, order, WeightRule::Treemap, 0, order.len());
    let heavier = child_weight(children, order[j] as int);
    let lighter = child_weight(children, order[k] as int);
    if j < k {
        assert(comes_before(children, order[j] as int, order[k] as int));
    }
    assert(0 <= (lighter * 1000) / total <= (heavier * 1000) / total <= 1000) by (nonlinear_arith)
        requires
            0 <= lighter <= heavier <= total,
            total >= 1,
    ;
}

} // verus!
