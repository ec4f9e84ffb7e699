//! The detailed layout: directories in the upper band of the canvas, files
//! in the lower one, with the smallest files gathered into one bucket while
//! the zoom is low.

use vstd::prelude::*;
use vstd::string::StringExecFns;
use crate::directory::DirectoryEntry;
use crate::fixed::SCALE;
use crate::text::{ends_with, is_suffix};
use crate::geometry::Size;
use crate::layout::cells::{band_spec, push_band};
use crate::layout::{
    Selection, SquareSource, VisualSquare, WeightRule, all_wf, ascending_below,
    lemma_total_weight_bounded, lemma_weight_sum_is_total, select_children, selected_indices,
    sum_weights, total_weight, weigh_children,
};

verus! {

/// Padding inside each directory cell, on every side.
pub const DIRECTORY_PADDING: i64 = 8000;

/// Padding inside each file cell, on every side.
pub const FILE_PADDING: i64 = 5000;

/// From this zoom factor on, every file is drawn on its own.
pub const FULL_DETAIL_ZOOM: i64 = 2000;

/// Small files are gathered only where there are more files than this.
pub const GROUPING_FILE_COUNT: usize = 20;

/// A file is small when a hundred times its size is less than the total of
/// all file sizes, that is when its share is below one percent.
pub const SMALL_SHARE_DIVISOR: u64 = 100;

/// Tenths of the canvas height that the directories get.
pub const DIRECTORY_BAND_TENTHS: i64 = 7;

/// Whether small files are gathered at this zoom and file count.
pub open spec fn grouping_applies(zoom: int, file_count: int) -> bool {
    zoom < FULL_DETAIL_ZOOM && file_count > GROUPING_FILE_COUNT
}

/// Whether the entry's share of `total` is below one percent.
pub open spec fn is_small(e: DirectoryEntry, total: int) -> bool {
    WeightRule::FileSize.weight(e) * SMALL_SHARE_DIVISOR < total
}

/// Of the first `upto` listed files, those that are small (`small` true) or
/// those that are not (`small` false), in order.
pub open spec fn files_by_size(
    children: Seq<DirectoryEntry>,
    files: Seq<usize>,
    total: int,
    small: bool,
    upto: nat,
) -> Seq<usize>
    decreases upto,
{
    if upto == 0 || upto > files.len() {
        Seq::empty()
    } else {
        let rest = files_by_size(children, files, total, small, (upto - 1) as nat);
        if is_small(children[files[upto - 1] as int], total) == small {
            rest.push(files[upto - 1])
        } else {
            rest
        }
    }
}

/// One source for each listed child, in order.
pub open spec fn child_sources(indices: Seq<usize>) -> Seq<SquareSource> {
    Seq::new(indices.len(), |k: int| SquareSource::Child(indices[k]))
}

/// Total size of the files among `children`.
pub open spec fn file_total(children: Seq<DirectoryEntry>) -> int {
    let files = selected_indices(children, Selection::Files, children.len());
    total_weight(children, files, WeightRule::FileSize, files.len())
}

/// The files that are gathered into the bucket at this zoom: none unless
/// grouping applies, else every file whose share is below one percent.
pub open spec fn grouped_files_spec(children: Seq<DirectoryEntry>, zoom: int) -> Seq<usize> {
    let files = selected_indices(children, Selection::Files, children.len());
    if grouping_applies(zoom, files.len() as int) {
        files_by_size(children, files, file_total(children), true, files.len())
    } else {
        Seq::empty()
    }
}

/// The files that are drawn on their own at this zoom.
pub open spec fn single_files_spec(children: Seq<DirectoryEntry>, zoom: int) -> Seq<usize> {
    let files = selected_indices(children, Selection::Files, children.len());
    if grouping_applies(zoom, files.len() as int) {
        files_by_size(children, files, file_total(children), false, files.len())
    } else {
        files
    }
}

/// What the squares of the file band stand for: each file drawn on its own,
/// then the bucket if any file was gathered into it.
pub open spec fn file_sources(children: Seq<DirectoryEntry>, zoom: int) -> Seq<SquareSource> {
    let singles = child_sources(single_files_spec(children, zoom));
    if grouped_files_spec(children, zoom).len() > 0 {
        singles.push(SquareSource::Others)
    } else {
        singles
    }
}

/// Height of the directory band: seven tenths of the canvas where there is
/// a directory, nothing otherwise.
pub open spec fn directory_band_height(children: Seq<DirectoryEntry>, canvas: Size) -> int {
    if selected_indices(children, Selection::Directories, children.len()).len() > 0 {
        canvas.height_units() * DIRECTORY_BAND_TENTHS / 10
    } else {
        0
    }
}

/// Height of the file band: what the directory band leaves where there is a
/// file, nothing otherwise.
pub open spec fn file_band_height(children: Seq<DirectoryEntry>, canvas: Size) -> int {
    if selected_indices(children, Selection::Files, children.len()).len() > 0 {
        canvas.height_units() - directory_band_height(children, canvas)
    } else {
        0
    }
}

/// The detailed layout of a directory.
///
/// A root that is no directory, a directory without children and a canvas
/// without area give no squares. Otherwise the directories come first, as a
/// band of equal cells over the top of the canvas, then the files and the
/// bucket, as a band of equal cells below it.
pub open spec fn detailed_layout_spec(root: DirectoryEntry, canvas: Size, zoom: int) -> Seq<
    VisualSquare,
> {
    let children = root.children@;
    if !root.is_directory || children.len() == 0 || canvas.is_empty() {
        Seq::empty()
    } else {
        let directories = selected_indices(children, Selection::Directories, children.len());
        band_spec(
            child_sources(directories),
            canvas.width_units(),
            directory_band_height(children, canvas),
            0,
            DIRECTORY_PADDING as int,
        ) + band_spec(
            file_sources(children, zoom),
            canvas.width_units(),
            file_band_height(children, canvas),
            directory_band_height(children, canvas),
            FILE_PADDING as int,
        )
    }
}

/// One source for each listed child, in order.
pub fn sources_of(indices: &Vec<usize>) -> (sources: Vec<SquareSource>)
    ensures
        sources@ == child_sources(indices@),
{
    let mut sources: Vec<SquareSource> = Vec::new();
    let n: usize = indices.len();
    let mut k: usize = 0;
    while k < n
        invariant
            n == indices@.len(),
            k <= n,
            sources@.len() == k,
            forall|j: int| 0 <= j < k ==> sources@[j] == SquareSource::Child(indices@[j]),
        decreases n - k,
    {
        sources.push(SquareSource::Child(indices[k]));
        k = k + 1;
    }
    assert(sources@ =~= child_sources(indices@));
    sources
}

/// Splits the listed files into those drawn on their own and those whose
/// share of `total` is below one percent.
pub fn split_by_size(
    children: &Vec<DirectoryEntry>,
    files: &Vec<usize>,
    weights: &Vec<u64>,
    total: u64,
) -> (parts: (Vec<usize>, Vec<usize>))
    requires
        ascending_below(files@, children@.len() as int),
        weights@.len() == files@.len(),
        forall|k: int|
            0 <= k < files@.len() ==> (#[trigger] weights@[k]) == WeightRule::FileSize.weight(
                children@[files@[k] as int],
            ),
    ensures
        parts.0@ == files_by_size(children@, files@, total as int, false, files@.len()),
        parts.1@ == files_by_size(children@, files@, total as int, true, files@.len()),
{
    let mut singles: Vec<usize> = Vec::new();
    let mut grouped: Vec<usize> = Vec::new();
    let n: usize = files.len();
    let mut k: usize = 0;
    while k < n
        invariant
            n == files@.len(),
            k <= n,
            weights@.len() == files@.len(),
            forall|j: int|
                0 <= j < files@.len() ==> (#[trigger] weights@[j]) == WeightRule::FileSize.weight(
                    children@[files@[j] as int],
                ),
            singles@ == files_by_size(children@, files@, total as int, false, k as nat),
            grouped@ == files_by_size(children@, files@, total as int, true, k as nat),
        decreases n - k,
    {
        let small: bool = (weights[k] as u128) * (SMALL_SHARE_DIVISOR as u128) < (total as u128);
        assert(small == is_small(children@[files@[k as int] as int], total as int));
        if small {
            grouped.push(files[k]);
        } else {
            singles.push(files[k]);
        }
        k = k + 1;
    }
    (singles, grouped)
}

/// The indices of the files that the detailed layout gathers into its
/// bucket at this zoom, in order.
pub fn grouped_files(root: &DirectoryEntry, zoom: i64) -> (grouped: Vec<usize>)
    requires
        root.weights_fit(),
    ensures
        grouped@ == grouped_files_spec(root.children@, zoom as int),
{
    let (_singles, grouped) = classify_files(root, zoom);
    grouped
}

/// The path of what is called `name` in the directory with the given
/// path: the two with a separator between them, unless the directory's path
/// is empty or ends with one.
pub open spec fn joined_path(directory: Seq<char>, name: Seq<char>) -> Seq<char> {
    if directory.len() == 0 || is_suffix("/"@, directory) {
        directory + name
    } else {
        directory + "/"@ + name
    }
}

/// The name of the bucket's entry.
pub open spec fn others_name() -> Seq<char> {
    "Others"@
}

/// The entry that the bucket stands for: a directory called `Others` in the
/// directory that is laid out, of unknown size, with the gathered files as
/// its children, in their order.
pub fn others_entry(root: &DirectoryEntry, zoom: i64) -> (entry: DirectoryEntry)
    requires
        root.weights_fit(),
    ensures
        entry.is_directory,
        entry.name@ == others_name(),
        entry.path@ == joined_path(root.path@, others_name()),
        entry.size_bytes is None,
        entry.children@.len() == grouped_files_spec(root.children@, zoom as int).len(),
        forall|k: int|
            0 <= k < entry.children@.len() ==> (#[trigger] entry.children@[k])@
                == root.children@[grouped_files_spec(root.children@, zoom as int)[k] as int]@,
{
    let grouped = grouped_files(root, zoom);
    let n: usize = grouped.len();
    let count: usize = root.children.len();
    proof {
        assert(count == root.children@.len());
        crate::layout::laws::lemma_grouped_files_in_range(root.children@, zoom as int);
    }
    let mut children: Vec<DirectoryEntry> = Vec::new();
    let mut k: usize = 0;
    while k < n
        invariant
            n == grouped@.len(),
            k <= n,
            grouped@ == grouped_files_spec(root.children@, zoom as int),
            forall|j: int| 0 <= j < n ==> (#[trigger] grouped@[j]) < root.children@.len(),
            children@.len() == k,
            forall|j: int|
                0 <= j < k ==> (#[trigger] children@[j])@ == root.children@[grouped@[j] as int]@,
        decreases n - k,
    {
        children.push(root.children[grouped[k]].clone());
        k = k + 1;
    }
    let mut path = root.path.clone();
    if !root.path.as_str().is_empty() && !ends_with(root.path.as_str(), "/") {
        path.append("/");
    }
    path.append("Others");
    DirectoryEntry {
        name: String::from_str("Others"),
        path,
        is_directory: true,
        size_bytes: None,
        children,
    }
}

/// The files drawn on their own and the files gathered into the bucket.
pub fn classify_files(root: &DirectoryEntry, zoom: i64) -> (parts: (Vec<usize>, Vec<usize>))
    requires
        root.weights_fit(),
    ensures
        parts.0@ == single_files_spec(root.children@, zoom as int),
        parts.1@ == grouped_files_spec(root.children@, zoom as int),
{
    let files = select_children(&root.children, Selection::Files);
    if zoom < FULL_DETAIL_ZOOM && files.len() > GROUPING_FILE_COUNT {
        let weights = weigh_children(&root.children, &files, WeightRule::FileSize);
        proof {
            lemma_weight_sum_is_total(
                root.children@,
                files@,
                WeightRule::FileSize,
                weights@,
                files@.len(),
            );
            lemma_total_weight_bounded(
                root.children@,
                files@,
                WeightRule::FileSize,
                files@.len(),
            );
        }
        let total: u64 = sum_weights(&weights);
        split_by_size(&root.children, &files, &weights, total)
    } else {
        (files, Vec::new())
    }
}

/// Lays a directory out in two bands, directories above files.
pub fn generate_detailed_layout(root: &DirectoryEntry, canvas: Size, zoom: i64) -> (squares: Vec<
    VisualSquare,
>)
    requires
        root.weights_fit(),
    ensures
        squares@ == detailed_layout_spec(*root, canvas, zoom as int),
        all_wf(squares@),
{
    let mut squares: Vec<VisualSquare> = Vec::new();
    if !root.is_directory || root.children.len() == 0 || canvas.width == 0 || canvas.height == 0 {
        return squares;
    }
    let width: i64 = (canvas.width as i64) * SCALE;
    let height: i64 = (canvas.height as i64) * SCALE;
    let directories = select_children(&root.children, Selection::Directories);
    let files = select_children(&root.children, Selection::Files);
    let directory_height: i64 = if directories.len() > 0 {
        height * DIRECTORY_BAND_TENTHS / 10
    } else {
        0
    };
    let file_height: i64 = if files.len() > 0 {
        height - directory_height
    } else {
        0
    };
    let directory_sources = sources_of(&directories);
    push_band(&mut squares, &directory_sources, width, directory_height, 0, DIRECTORY_PADDING);
    let (singles, grouped) = classify_files(root, zoom);
    let mut sources = sources_of(&singles);
    if grouped.len() > 0 {
        sources.push(SquareSource::Others);
    }
    push_band(&mut squares, &sources, width, file_height, directory_height, FILE_PADDING);
    squares
}

} // verus!
