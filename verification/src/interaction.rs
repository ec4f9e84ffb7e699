//! Hit-testing of the pointer against the squares on screen, and the
//! hover, selection and drag state that follows from it.

use vstd::prelude::*;
use crate::directory::DirectoryEntry;
use crate::geometry::{Point, Rect};
use crate::layout::{SquareSource, VisualSquare, all_wf};

verus! {

/// Which squares the pointer hovers over, has selected and is dragging.
#[derive(Debug, Clone, Copy, PartialEq, Eq)]
pub struct InteractionState {
    /// Index of the square under the pointer.
    pub hovered: Option<usize>,
    /// Index of the selected square.
    pub selected: Option<usize>,
    /// Index of the square that follows the pointer.
    pub dragging: Option<usize>,
}

/// What one frame of pointer input led to.
#[derive(Debug, Clone, Copy, PartialEq, Eq)]
pub struct InteractionOutcome {
    /// The square that a click selected in this frame.
    pub selected: Option<usize>,
    /// What to make the new root of the view: set where a click selected a
    /// directory.
    pub drill_down: Option<SquareSource>,
}

/// An index that is within a list of `len` items, or none.
pub open spec fn valid_index(index: Option<usize>, len: nat) -> Option<usize> {
    match index {
        Some(i) if i < len => index,
        _ => None,
    }
}

/// Whether the square at `i` is on screen under the point.
pub open spec fn is_hit(squares: Seq<VisualSquare>, animating: bool, p: Point, i: int) -> bool {
    squares[i].spec_displayed_rect(animating).spec_contains(p)
}

/// The first square from `from` on that is on screen under the point.
pub open spec fn first_hit_from(
    squares: Seq<VisualSquare>,
    animating: bool,
    p: Point,
    from: nat,
) -> Option<usize>
    decreases squares.len() - from,
{
    if from >= squares.len() {
        None
    } else if is_hit(squares, animating, p, from as int) {
        Some(from as usize)
    } else {
        first_hit_from(squares, animating, p, from + 1)
    }
}

/// The square that the pointer hovers over: the first in list order that is
/// on screen under it.
pub open spec fn hover_spec(
    squares: Seq<VisualSquare>,
    animating: bool,
    pointer: Option<Point>,
) -> Option<usize> {
    match pointer {
        Some(p) => first_hit_from(squares, animating, p, 0),
        None => None,
    }
}

/// The selection after a frame: the hovered square if it was clicked, else
/// the previous selection as far as it is still in the list.
pub open spec fn selection_spec(
    selected: Option<usize>,
    len: nat,
    hovered: Option<usize>,
    clicked: bool,
) -> Option<usize> {
    if clicked && hovered is Some {
        hovered
    } else {
        valid_index(selected, len)
    }
}

/// The dragged square after a frame. Without a pointer nothing changes.
/// While the button is down a drag goes on, or begins with the hovered
/// square; once the button is up there is none.
pub open spec fn dragging_spec(
    dragging: Option<usize>,
    len: nat,
    hovered: Option<usize>,
    pointer: Option<Point>,
    primary_down: bool,
) -> Option<usize> {
    if pointer is None {
        valid_index(dragging, len)
    } else if !primary_down {
        None
    } else if valid_index(dragging, len) is Some {
        valid_index(dragging, len)
    } else {
        hovered
    }
}

/// The square that follows the pointer in this frame: the one whose drag
/// was already going on, while the button is still down.
pub open spec fn moved_spec(
    dragging: Option<usize>,
    len: nat,
    pointer: Option<Point>,
    primary_down: bool,
) -> Option<usize> {
    if pointer is Some && primary_down {
        valid_index(dragging, len)
    } else {
        None
    }
}

/// Whether a click on a square that stands for `source` asks to drill
/// down: the bucket and every directory do.
pub open spec fn opens_directory(root: DirectoryEntry, source: SquareSource) -> bool {
    match source {
        SquareSource::Child(i) => i < root.children@.len() && root.children@[i as int].is_directory,
        SquareSource::Others => true,
    }
}

/// The square at index `i` after a frame: its flags say whether it is the
/// hovered and the selected one, and if it is dragged its rectangle is
/// centred on the pointer, size unchanged.
pub open spec fn square_after(
    square: VisualSquare,
    i: int,
    hovered: Option<usize>,
    selected: Option<usize>,
    moved: Option<usize>,
    pointer: Option<Point>,
) -> VisualSquare {
    VisualSquare {
        hovered: hovered == Some(i as usize),
        selected: selected == Some(i as usize),
        rect: if moved == Some(i as usize) && pointer is Some {
            Rect::spec_from_center_size(
                pointer->0,
                square.rect.spec_width(),
                square.rect.spec_height(),
            )
        } else {
            square.rect
        },
        ..square
    }
}

/// The first hit is a hit, and nothing before it is.
pub proof fn lemma_first_hit(squares: Seq<VisualSquare>, animating: bool, p: Point, from: nat)
    requires
        squares.len() <= usize::MAX,
    ensures
        match first_hit_from(squares, animating, p, from) {
            Some(i) => {
                &&& from <= i < squares.len()
                &&& is_hit(squares, animating, p, i as int)
                &&& forall|j: int| from <= j < i ==> !is_hit(squares, animating, p, j)
            },
            None => forall|j: int| from <= j < squares.len() ==> !is_hit(squares, animating, p, j),
        },
    decreases squares.len() - from,
{
    if from < squares.len() && !is_hit(squares, animating, p, from as int) {
        lemma_first_hit(squares, animating, p, from + 1);
    }
}

/// Where the pointer is over one square and no other, that square is the
/// hovered one.
pub proof fn law_single_hit(squares: Seq<VisualSquare>, animating: bool, p: Point, k: int)
    requires
        squares.len() <= usize::MAX,
        0 <= k < squares.len(),
        forall|j: int| 0 <= j < squares.len() ==> (is_hit(squares, animating, p, j) <==> j == k),
    ensures
        hover_spec(squares, animating, Some(p)) == Some(k as usize),
{
    lemma_first_hit(squares, animating, p, 0);
    assert(is_hit(squares, animating, p, k));
    match first_hit_from(squares, animating, p, 0) {
        Some(i) => {
            assert(is_hit(squares, animating, p, i as int));
        },
        None => {
            assert(!is_hit(squares, animating, p, k));
        },
    }
}

impl InteractionState {
    /// The state in which nothing is hovered over, selected or dragged.
    pub open spec fn new_spec() -> InteractionState {
        InteractionState { hovered: None, selected: None, dragging: None }
    }

    /// Nothing hovered, selected or dragged.
    pub fn new() -> (state: InteractionState)
        ensures
            state == InteractionState::new_spec(),
    {
        InteractionState { hovered: None, selected: None, dragging: None }
    }

    /// Every index of the state is within a list of `len` squares.
    pub open spec fn within(self, len: nat) -> bool {
        &&& valid_index(self.hovered, len) == self.hovered
        &&& valid_index(self.selected, len) == self.selected
        &&& valid_index(self.dragging, len) == self.dragging
    }

    /// Forgets every index that is not within a list of `len` squares.
    pub fn revalidate(&mut self, len: usize)
        ensures
            final(self).hovered == valid_index(old(self).hovered, len as nat),
            final(self).selected == valid_index(old(self).selected, len as nat),
            final(self).dragging == valid_index(old(self).dragging, len as nat),
            final(self).within(len as nat),
    {
        self.hovered = checked_index(self.hovered, len);
        self.selected = checked_index(self.selected, len);
        self.dragging = checked_index(self.dragging, len);
    }

    /// Takes one frame of pointer input.
    ///
    /// The hovered square is the first in list order whose rectangle on
    /// screen holds the pointer. A click on it selects it, in place of any
    /// square selected before, and asks to drill down if it stands for a
    /// directory. A square whose drag is going on is centred on the
    /// pointer. Indices of the state that are beyond the list count as
    /// none.
    pub fn update(
        &mut self,
        squares: &mut Vec<VisualSquare>,
        root: &DirectoryEntry,
        animating: bool,
        pointer: Option<Point>,
        primary_clicked: bool,
        primary_down: bool,
    ) -> (outcome: InteractionOutcome)
        requires
            all_wf(old(squares)@),
            pointer matches Some(p) ==> p.in_range(),
        ensures
            final(squares)@.len() == old(squares)@.len(),
            all_wf(final(squares)@),
            final(self).within(final(squares)@.len()),
            final(self).hovered == hover_spec(old(squares)@, animating, pointer),
            final(self).selected == selection_spec(
                old(self).selected,
                old(squares)@.len(),
                final(self).hovered,
                primary_clicked,
            ),
            final(self).dragging == dragging_spec(
                old(self).dragging,
                old(squares)@.len(),
                final(self).hovered,
                pointer,
                primary_down,
            ),
            forall|i: int|
                0 <= i < old(squares)@.len() ==> (#[trigger] final(squares)@[i]) == square_after(
                    old(squares)@[i],
                    i,
                    final(self).hovered,
                    final(self).selected,
                    moved_spec(old(self).dragging, old(squares)@.len(), pointer, primary_down),
                    pointer,
                ),
            outcome.selected == (if primary_clicked {
                final(self).hovered
            } else {
                None
            }),
            outcome.drill_down == (if primary_clicked && final(self).hovered is Some
                && opens_directory(
                *root,
                old(squares)@[final(self).hovered->0 as int].source,
            ) {
                Some(old(squares)@[final(self).hovered->0 as int].source)
            } else {
                None
            }),
    {
        let len: usize = squares.len();
        self.revalidate(len);
        let hovered: Option<usize> = match pointer {
            Some(p) => find_hit(squares, animating, p),
            None => None,
        };
        proof {
            if pointer is Some {
                lemma_first_hit(squares@, animating, pointer->0, 0);
            }
        }
        let moved: Option<usize> = if pointer.is_some() && primary_down {
            self.dragging
        } else {
            None
        };
        let mut outcome = InteractionOutcome { selected: None, drill_down: None };
        self.hovered = hovered;
        if primary_clicked {
            match hovered {
                Some(h) => {
                    self.selected = Some(h);
                    outcome.selected = Some(h);
                    let source = squares[h].source;
                    if is_directory_source(root, source) {
                        outcome.drill_down = Some(source);
                    }
                },
                None => {},
            }
        }
        match pointer {
            Some(_) => {
                if !primary_down {
                    self.dragging = None;
                } else if self.dragging.is_none() {
                    self.dragging = hovered;
                }
            },
            None => {},
        }
        let ghost before = squares@;
        let mut i: usize = 0;
        while i < len
            invariant
                len == before.len(),
                squares@.len() == len,
                i <= len,
                all_wf(before),
                pointer matches Some(p) ==> p.in_range(),
                moved is Some ==> pointer is Some,
                forall|j: int| i <= j < len ==> squares@[j] == before[j],
                forall|j: int|
                    0 <= j < i ==> (#[trigger] squares@[j]) == square_after(
                        before[j],
                        j,
                        self.hovered,
                        self.selected,
                        moved,
                        pointer,
                    ),
                forall|j: int| 0 <= j < i ==> (#[trigger] squares@[j]).wf(),
            decreases len - i,
        {
            let mut square = squares[i];
            square.hovered = is_index(self.hovered, i);
            square.selected = is_index(self.selected, i);
            if is_index(moved, i) {
                match pointer {
                    Some(p) => {
                        square.rect = Rect::from_center_size(
                            p,
                            square.rect.width(),
                            square.rect.height(),
                        );
                    },
                    None => {},
                }
            }
            squares.set(i, square);
            i = i + 1;
        }
        outcome
    }
}

/// Whether the optional index is `i`.
pub fn is_index(index: Option<usize>, i: usize) -> (same: bool)
    ensures
        same == (index == Some(i)),
{
    match index {
        Some(j) => j == i,
        None => false,
    }
}

/// The index if it is within a list of `len` items.
pub fn checked_index(index: Option<usize>, len: usize) -> (checked: Option<usize>)
    ensures
        checked == valid_index(index, len as nat),
{
    match index {
        Some(i) => if i < len {
            index
        } else {
            None
        },
        None => None,
    }
}

/// Whether a click on a square that stands for `source` asks to drill down.
pub fn is_directory_source(root: &DirectoryEntry, source: SquareSource) -> (opens: bool)
    ensures
        opens == opens_directory(*root, source),
{
    match source {
        SquareSource::Child(i) => i < root.children.len() && root.children[i].is_directory,
        SquareSource::Others => true,
    }
}

/// The first square in list order that is on screen under the point.
pub fn find_hit(squares: &Vec<VisualSquare>, animating: bool, p: Point) -> (hit: Option<usize>)
    requires
        all_wf(squares@),
    ensures
        hit == first_hit_from(squares@, animating, p, 0),
{
    let len: usize = squares.len();
    let mut i: usize = 0;
    while i < len
        invariant
            len == squares@.len(),
            i <= len,
            all_wf(squares@),
            first_hit_from(squares@, animating, p, 0) == first_hit_from(
                squares@,
                animating,
                p,
                i as nat,
            ),
        decreases len - i,
    {
        let rect = squares[i].displayed_rect(animating);
        if rect.contains(p) {
            return Some(i);
        }
        i = i + 1;
    }
    None
}

} // verus!
