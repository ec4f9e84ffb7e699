//! The layout engine: from a directory, a zoom factor and a canvas size to a
//! list of positioned squares.

pub mod cells;
pub mod detailed;
pub mod force;
pub mod grid;
pub mod laws;
pub mod separation;
pub mod slicing;
pub mod treemap;

use vstd::prelude::*;
use crate::directory::{DirectoryEntry, cap_sum, lemma_cap_sum_monotone};
use crate::fixed::SCALE;
use crate::geometry::{Rect, Size};
use crate::layout::detailed::{detailed_layout_spec, generate_detailed_layout};
use crate::layout::force::{force_layout_spec, generate_force_directed_layout};
use crate::layout::grid::{generate_grid_layout, grid_layout_spec};
use crate::layout::treemap::{generate_treemap_layout, treemap_layout_spec};

verus! {

/// Available layout strategies.
#[derive(Debug, Clone, Copy, PartialEq, Eq, Structural)]
pub enum LayoutType {
    Grid,
    Treemap,
    ForceDirected,
    Detailed,
}

/// What a square stands for.
#[derive(Debug, Clone, Copy, PartialEq, Eq, Structural)]
pub enum SquareSource {
    /// The child of the laid-out directory at this index.
    Child(usize),
    /// The bucket that gathers the files too small to draw one by one.
    Others,
}

/// A positioned, sized rectangle that stands for one entry in one frame.
#[derive(Debug, Clone, Copy, PartialEq, Eq)]
pub struct VisualSquare {
    /// The entry this square represents.
    pub source: SquareSource,
    /// Position and size of the square once any animation has ended.
    pub rect: Rect,
    /// Whether this square is currently selected.
    pub selected: bool,
    /// Whether the pointer is currently over this square.
    pub hovered: bool,
    /// Share among the siblings, in thousandths from 0 to 1000.
    pub size_weight: u64,
    /// Eased animation progress, in thousandths from 0 to 1000.
    pub animation_progress: i64,
    /// Where the square stood when the running animation began.
    pub prev_rect: Option<Rect>,
}

impl VisualSquare {
    /// The rectangles are bounded and the progress is a fraction.
    pub open spec fn wf(self) -> bool {
        &&& self.rect.wf()
        &&& 0 <= self.animation_progress <= SCALE
        &&& self.prev_rect matches Some(p) ==> p.bounded()
    }

    /// The rectangle that is on screen: during an animation the edges are
    /// interpolated from the previous rectangle toward the current one.
    pub open spec fn spec_displayed_rect(self, animating: bool) -> Rect {
        match self.prev_rect {
            Some(prev) if animating => prev.spec_lerp(self.rect, self.animation_progress as int),
            _ => self.rect,
        }
    }

    /// The rectangle that is on screen.
    pub fn displayed_rect(&self, animating: bool) -> (r: Rect)
        requires
            self.wf(),
        ensures
            r == self.spec_displayed_rect(animating),
            r.bounded(),
    {
        match self.prev_rect {
            Some(prev) => {
                if animating {
                    prev.lerp(&self.rect, self.animation_progress)
                } else {
                    self.rect
                }
            },
            None => self.rect,
        }
    }

    /// A square fresh from a layout: at rest, neither selected nor hovered.
    pub open spec fn spec_fresh(source: SquareSource, rect: Rect, size_weight: int) -> VisualSquare {
        VisualSquare {
            source,
            rect,
            selected: false,
            hovered: false,
            size_weight: size_weight as u64,
            animation_progress: 0,
            prev_rect: None,
        }
    }

    /// A square fresh from a layout.
    pub fn fresh(source: SquareSource, rect: Rect, size_weight: u64) -> (s: VisualSquare)
        requires
            rect.wf(),
        ensures
            s == VisualSquare::spec_fresh(source, rect, size_weight as int),
            s.wf(),
    {
        VisualSquare {
            source,
            rect,
            selected: false,
            hovered: false,
            size_weight,
            animation_progress: 0,
            prev_rect: None,
        }
    }
}

/// Every square of the list is well formed.
pub open spec fn all_wf(squares: Seq<VisualSquare>) -> bool {
    forall|i: int| 0 <= i < squares.len() ==> (#[trigger] squares[i]).wf()
}

/// Which children a layout takes.
#[derive(Debug, Clone, Copy, PartialEq, Eq, Structural)]
pub enum Selection {
    All,
    Directories,
    Files,
}

impl Selection {
    /// Whether the selection takes the entry.
    pub open spec fn takes(self, e: DirectoryEntry) -> bool {
        match self {
            Selection::All => true,
            Selection::Directories => e.is_directory,
            Selection::Files => !e.is_directory,
        }
    }
}

/// The indices below `upto` of the children that the selection takes, in
/// ascending order.
pub open spec fn selected_indices(
    children: Seq<DirectoryEntry>,
    which: Selection,
    upto: nat,
) -> Seq<usize>
    decreases upto,
{
    if upto == 0 || upto > children.len() {
        Seq::empty()
    } else if which.takes(children[upto - 1]) {
        selected_indices(children, which, (upto - 1) as nat).push((upto - 1) as usize)
    } else {
        selected_indices(children, which, (upto - 1) as nat)
    }
}

/// `indices` is strictly ascending and stays below `bound`.
pub open spec fn ascending_below(indices: Seq<usize>, bound: int) -> bool {
    &&& forall|k: int| 0 <= k < indices.len() ==> (#[trigger] indices[k]) < bound
    &&& forall|j: int, k: int| 0 <= j < k < indices.len() ==> indices[j] < indices[k]
}

/// The selected indices are ascending, each names a child that the selection
/// takes, and no such child is left out.
pub proof fn lemma_selected_indices(children: Seq<DirectoryEntry>, which: Selection, upto: nat)
    requires
        upto <= children.len(),
        children.len() <= usize::MAX,
    ensures
        ascending_below(selected_indices(children, which, upto), upto as int),
        selected_indices(children, which, upto).len() <= upto,
        forall|k: int|
            0 <= k < selected_indices(children, which, upto).len() ==> which.takes(
                children[(#[trigger] selected_indices(children, which, upto)[k]) as int],
            ),
        forall|i: int|
            0 <= i < upto && which.takes(children[i]) ==> selected_indices(
                children,
                which,
                upto,
            ).contains(i as usize),
    decreases upto,
{
    if upto > 0 {
        lemma_selected_indices(children, which, (upto - 1) as nat);
        let prev = selected_indices(children, which, (upto - 1) as nat);
        let cur = selected_indices(children, which, upto);
        if which.takes(children[upto - 1]) {
            assert(cur == prev.push((upto - 1) as usize));
            assert(cur[cur.len() - 1] == (upto - 1) as usize);
            assert forall|i: int| 0 <= i < upto && which.takes(children[i]) implies cur.contains(
                i as usize,
            ) by {
                if i < upto - 1 {
                    let k = choose|k: int| 0 <= k < prev.len() && prev[k] == i as usize;
                    assert(cur[k] == i as usize);
                } else {
                    assert(cur[cur.len() - 1] == i as usize);
                }
            }
        } else {
            assert(cur == prev);
        }
    }
}

/// The indices of the children that the selection takes, in order.
pub fn select_children(children: &Vec<DirectoryEntry>, which: Selection) -> (indices: Vec<usize>)
    ensures
        indices@ == selected_indices(children@, which, children@.len()),
        ascending_below(indices@, children@.len() as int),
{
    let mut indices: Vec<usize> = Vec::new();
    let n: usize = children.len();
    let mut i: usize = 0;
    while i < n
        invariant
            n == children@.len(),
            i <= n,
            indices@ == selected_indices(children@, which, i as nat),
        decreases n - i,
    {
        let take: bool = match which {
            Selection::All => true,
            Selection::Directories => children[i].is_directory,
            Selection::Files => !children[i].is_directory,
        };
        if take {
            indices.push(i);
        }
        i = i + 1;
    }
    proof {
        lemma_selected_indices(children@, which, n as nat);
    }
    indices
}

/// The least that the grid weighs a file.
pub const FILE_WEIGHT_FLOOR: u64 = 1000;

/// How a layout strategy weighs an entry.
#[derive(Debug, Clone, Copy, PartialEq, Eq, Structural)]
pub enum WeightRule {
    /// For a directory the size on disk where it is known and not zero,
    /// otherwise 1000 for each child plus 1000; for a file the size on
    /// disk, and 1000 where that is less or unknown.
    Grid,
    /// For a directory the size on disk where it is known and not zero,
    /// otherwise 1000 for each child; for a file the size on disk, or 1000
    /// where it is unknown.
    Treemap,
    /// The size on disk, or 1000 where it is unknown.
    FileSize,
}

impl WeightRule {
    /// The weight of an entry under this rule.
    pub open spec fn weight(self, e: DirectoryEntry) -> int {
        match self {
            WeightRule::Grid => if e.is_directory {
                match e.size_bytes {
                    Some(s) if s > 0 => s as int,
                    _ => (e.children@.len() as int + 1) * 1000,
                }
            } else {
                match e.size_bytes {
                    Some(s) if s > FILE_WEIGHT_FLOOR => s as int,
                    _ => FILE_WEIGHT_FLOOR as int,
                }
            },
            WeightRule::Treemap => if e.is_directory {
                match e.size_bytes {
                    Some(s) if s > 0 => s as int,
                    _ => e.children@.len() as int * 1000,
                }
            } else {
                match e.size_bytes {
                    Some(s) => s as int,
                    None => 1000,
                }
            },
            WeightRule::FileSize => match e.size_bytes {
                Some(s) => s as int,
                None => 1000,
            },
        }
    }

    /// No rule weighs an entry above its cap.
    pub proof fn lemma_weight_capped(self, e: DirectoryEntry)
        ensures
            0 <= self.weight(e) <= e.weight_cap(),
    {
    }

    /// The weight of an entry under this rule.
    pub fn weigh(self, e: &DirectoryEntry) -> (w: u64)
        requires
            e.weight_cap() <= u64::MAX,
        ensures
            w == self.weight(*e),
    {
        let count: u128 = e.children.len() as u128;
        match self {
            WeightRule::Grid => {
                if e.is_directory {
                    match e.size_bytes {
                        Some(s) => {
                            if s > 0 {
                                return s;
                            }
                        },
                        None => {},
                    }
                    ((count + 1) * 1000) as u64
                } else {
                    match e.size_bytes {
                        Some(s) => if s > FILE_WEIGHT_FLOOR {
                            s
                        } else {
                            FILE_WEIGHT_FLOOR
                        },
                        None => FILE_WEIGHT_FLOOR,
                    }
                }
            },
            WeightRule::Treemap => {
                if e.is_directory {
                    match e.size_bytes {
                        Some(s) => {
                            if s > 0 {
                                return s;
                            }
                        },
                        None => {},
                    }
                    (count * 1000) as u64
                } else {
                    match e.size_bytes {
                        Some(s) => s,
                        None => 1000,
                    }
                }
            },
            WeightRule::FileSize => {
                match e.size_bytes {
                    Some(s) => s,
                    None => 1000,
                }
            },
        }
    }
}

/// Sum of the weights of the first `upto` listed children.
pub open spec fn total_weight(
    children: Seq<DirectoryEntry>,
    indices: Seq<usize>,
    rule: WeightRule,
    upto: nat,
) -> int
    decreases upto,
{
    if upto == 0 || upto > indices.len() {
        0
    } else {
        total_weight(children, indices, rule, (upto - 1) as nat) + rule.weight(
            children[indices[upto - 1] as int],
        )
    }
}

/// The weights of any ascending list of children add up to no more than the
/// caps of all children.
pub proof fn lemma_total_weight_bounded(
    children: Seq<DirectoryEntry>,
    indices: Seq<usize>,
    rule: WeightRule,
    upto: nat,
)
    requires
        upto <= indices.len(),
        ascending_below(indices, children.len() as int),
    ensures
        0 <= total_weight(children, indices, rule, upto),
        upto > 0 ==> total_weight(children, indices, rule, upto) <= cap_sum(
            children,
            (indices[upto - 1] + 1) as nat,
        ),
        total_weight(children, indices, rule, upto) <= cap_sum(children, children.len()),
    decreases upto,
{
    lemma_cap_sum_monotone(children, 0, children.len());
    if upto > 0 {
        lemma_total_weight_bounded(children, indices, rule, (upto - 1) as nat);
        let last = indices[upto - 1] as int;
        rule.lemma_weight_capped(children[last]);
        if upto > 1 {
            lemma_cap_sum_monotone(children, (indices[upto - 2] + 1) as nat, last as nat);
        } else {
            lemma_cap_sum_monotone(children, 0, last as nat);
        }
        lemma_cap_sum_monotone(children, (last + 1) as nat, children.len());
    }
}

/// The total grows with the number of children taken.
pub proof fn lemma_total_weight_monotone(
    children: Seq<DirectoryEntry>,
    indices: Seq<usize>,
    rule: WeightRule,
    a: nat,
    b: nat,
)
    requires
        a <= b <= indices.len(),
    ensures
        total_weight(children, indices, rule, a) <= total_weight(children, indices, rule, b),
    decreases b,
{
    if a < b {
        lemma_total_weight_monotone(children, indices, rule, a, (b - 1) as nat);
        rule.lemma_weight_capped(children[indices[b - 1] as int]);
    }
}

/// The weight of each listed child, in order.
pub fn weigh_children(
    children: &Vec<DirectoryEntry>,
    indices: &Vec<usize>,
    rule: WeightRule,
) -> (weights: Vec<u64>)
    requires
        ascending_below(indices@, children@.len() as int),
        cap_sum(children@, children@.len()) < u64::MAX,
    ensures
        weights@.len() == indices@.len(),
        forall|k: int|
            0 <= k < indices@.len() ==> (#[trigger] weights@[k]) == rule.weight(
                children@[indices@[k] as int],
            ),
{
    let mut weights: Vec<u64> = Vec::new();
    let n: usize = indices.len();
    let mut k: usize = 0;
    while k < n
        invariant
            n == indices@.len(),
            k <= n,
            ascending_below(indices@, children@.len() as int),
            cap_sum(children@, children@.len()) < u64::MAX,
            weights@.len() == k,
            forall|j: int|
                0 <= j < k ==> (#[trigger] weights@[j]) == rule.weight(
                    children@[indices@[j] as int],
                ),
        decreases n - k,
    {
        let idx: usize = indices[k];
        proof {
            lemma_cap_bounded(children@, idx as int);
        }
        let w: u64 = rule.weigh(&children[idx]);
        weights.push(w);
        k = k + 1;
    }
    weights
}

/// One child's cap is no more than the sum of all caps.
pub proof fn lemma_cap_bounded(children: Seq<DirectoryEntry>, i: int)
    requires
        0 <= i < children.len(),
    ensures
        0 <= children[i].weight_cap() <= cap_sum(children, children.len()),
{
    lemma_cap_sum_monotone(children, 0, i as nat);
    lemma_cap_sum_monotone(children, (i + 1) as nat, children.len());
    assert(cap_sum(children, (i + 1) as nat) == cap_sum(children, i as nat)
        + children[i].weight_cap());
}

/// Sum of the first `upto` weights.
pub open spec fn weight_sum(weights: Seq<u64>, upto: nat) -> int
    decreases upto,
{
    if upto == 0 || upto > weights.len() {
        0
    } else {
        weight_sum(weights, (upto - 1) as nat) + weights[upto - 1]
    }
}

/// A list of weights that matches the children's adds up to their total.
pub proof fn lemma_weight_sum_is_total(
    children: Seq<DirectoryEntry>,
    indices: Seq<usize>,
    rule: WeightRule,
    weights: Seq<u64>,
    upto: nat,
)
    requires
        upto <= indices.len(),
        weights.len() == indices.len(),
        forall|k: int|
            0 <= k < indices.len() ==> (#[trigger] weights[k]) == rule.weight(
                children[indices[k] as int],
            ),
    ensures
        weight_sum(weights, upto) == total_weight(children, indices, rule, upto),
    decreases upto,
{
    if upto > 0 {
        lemma_weight_sum_is_total(children, indices, rule, weights, (upto - 1) as nat);
    }
}

/// The sum grows with the number of weights taken.
pub proof fn lemma_weight_sum_monotone(weights: Seq<u64>, a: nat, b: nat)
    requires
        a <= b <= weights.len(),
    ensures
        0 <= weight_sum(weights, a) <= weight_sum(weights, b),
    decreases b,
{
    if a < b {
        lemma_weight_sum_monotone(weights, a, (b - 1) as nat);
    } else if b > 0 {
        lemma_weight_sum_monotone(weights, (a - 1) as nat, (b - 1) as nat);
    }
}

/// Adds up a list of weights whose sum fits in 64 bits.
pub fn sum_weights(weights: &Vec<u64>) -> (total: u64)
    requires
        weight_sum(weights@, weights@.len()) <= u64::MAX,
    ensures
        total == weight_sum(weights@, weights@.len()),
{
    let n: usize = weights.len();
    let mut total: u64 = 0;
    let mut k: usize = 0;
    while k < n
        invariant
            n == weights@.len(),
            k <= n,
            total == weight_sum(weights@, k as nat),
            weight_sum(weights@, weights@.len()) <= u64::MAX,
        decreases n - k,
    {
        proof {
            lemma_weight_sum_monotone(weights@, (k + 1) as nat, n as nat);
        }
        total = total + weights[k];
        k = k + 1;
    }
    total
}

/// Below this zoom factor the grid is the strategy of choice.
pub const TREEMAP_ZOOM: i64 = 2000;

/// From this zoom factor on the detailed layout is the strategy of choice.
pub const DETAILED_ZOOM: i64 = 3000;

/// The strategy that goes with a zoom factor: the grid below 2, the treemap
/// from 2 to below 3, the detailed layout from 3 on.
pub open spec fn layout_for_zoom_spec(zoom: int) -> LayoutType {
    if zoom < TREEMAP_ZOOM {
        LayoutType::Grid
    } else if zoom < DETAILED_ZOOM {
        LayoutType::Treemap
    } else {
        LayoutType::Detailed
    }
}

/// The strategy that is used: the one asked for, or the one that goes with
/// the zoom factor where none is.
pub open spec fn effective_layout(mode: Option<LayoutType>, zoom: int) -> LayoutType {
    match mode {
        Some(layout_type) => layout_type,
        None => layout_for_zoom_spec(zoom),
    }
}

/// The squares that a strategy lays a directory out as.
pub open spec fn layout_spec(
    root: DirectoryEntry,
    zoom: int,
    layout_type: LayoutType,
    canvas: Size,
) -> Seq<VisualSquare> {
    match layout_type {
        LayoutType::Grid => grid_layout_spec(root, canvas, zoom),
        LayoutType::Treemap => treemap_layout_spec(root, canvas),
        LayoutType::ForceDirected => force_layout_spec(root, canvas),
        LayoutType::Detailed => detailed_layout_spec(root, canvas, zoom),
    }
}

/// The strategy that goes with a zoom factor.
pub fn layout_for_zoom(zoom: i64) -> (layout_type: LayoutType)
    ensures
        layout_type == layout_for_zoom_spec(zoom as int),
{
    if zoom < TREEMAP_ZOOM {
        LayoutType::Grid
    } else if zoom < DETAILED_ZOOM {
        LayoutType::Treemap
    } else {
        LayoutType::Detailed
    }
}

/// Lays a directory out with the given strategy.
pub fn layout_with(root: &DirectoryEntry, zoom: i64, layout_type: LayoutType, canvas: Size) -> (squares:
    Vec<VisualSquare>)
    requires
        root.weights_fit(),
    ensures
        squares@ == layout_spec(*root, zoom as int, layout_type, canvas),
        all_wf(squares@),
{
    match layout_type {
        LayoutType::Grid => generate_grid_layout(root, canvas, zoom),
        LayoutType::Treemap => generate_treemap_layout(root, canvas),
        LayoutType::ForceDirected => generate_force_directed_layout(root, canvas),
        LayoutType::Detailed => generate_detailed_layout(root, canvas, zoom),
    }
}

/// Lays a directory out: with the strategy asked for, or with the one that
/// goes with the zoom factor where `mode` is `None`. The directory is left
/// as it is, and the same arguments always give the same squares.
pub fn compute_layout(root: &DirectoryEntry, zoom: i64, mode: Option<LayoutType>, canvas: Size) -> (squares:
    Vec<VisualSquare>)
    requires
        root.weights_fit(),
    ensures
        squares@ == layout_spec(*root, zoom as int, effective_layout(mode, zoom as int), canvas),
        all_wf(squares@),
{
    let layout_type = match mode {
        Some(layout_type) => layout_type,
        None => layout_for_zoom(zoom),
    };
    layout_with(root, zoom, layout_type, canvas)
}

/// Lays a directory out as `compute_layout` does, where the weights of its
/// children fit; `None` where they do not.
pub fn try_compute_layout(
    root: &DirectoryEntry,
    zoom: i64,
    mode: Option<LayoutType>,
    canvas: Size,
) -> (squares: Option<Vec<VisualSquare>>)
    ensures
        squares is Some == root.weights_fit(),
        squares matches Some(s) ==> s@ == layout_spec(
            *root,
            zoom as int,
            effective_layout(mode, zoom as int),
            canvas,
        ) && all_wf(s@),
{
    if root.has_fitting_weights() {
        Some(compute_layout(root, zoom, mode, canvas))
    } else {
        None
    }
}

/// No layout gives anything for a root that is no directory, or for a
/// directory without children.
pub proof fn law_nothing_to_lay_out(
    root: DirectoryEntry,
    zoom: int,
    layout_type: LayoutType,
    canvas: Size,
)
    requires
        !root.is_directory || root.children@.len() == 0,
    ensures
        layout_spec(root, zoom, layout_type, canvas).len() == 0,
{
}

} // verus!
