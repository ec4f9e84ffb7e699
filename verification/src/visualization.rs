//! The visualizer: the directory on show, its squares, and the zoom,
//! animation and interaction state around them.

use vstd::prelude::*;
use crate::animation::{
    AnimationState, MAX_ZOOM, MIN_ZOOM, ZOOM_STEP, ease_spec, next_target, progress_spec,
};
use crate::cache::{KeyView, LayoutCache, copy_squares};
use crate::directory::DirectoryEntry;
use crate::fixed::{SCALE, lerp_spec};
use crate::geometry::{Point, Rect, Size};
use crate::interaction::{
    InteractionOutcome, InteractionState, dragging_spec, hover_spec, is_index, moved_spec,
    opens_directory, selection_spec, square_after,
};
use crate::layout::{LayoutType, SquareSource, VisualSquare, all_wf, layout_spec, layout_with};

verus! {

/// Width of the canvas that a new visualizer lays out on, in pixels.
pub const DEFAULT_CANVAS_WIDTH: u32 = 800;

/// Height of the canvas that a new visualizer lays out on, in pixels.
pub const DEFAULT_CANVAS_HEIGHT: u32 = 600;

/// The first square from `from` on that stands for `source`.
pub open spec fn find_source(squares: Seq<VisualSquare>, source: SquareSource, from: nat) -> Option<
    usize,
>
    decreases squares.len() - from,
{
    if from >= squares.len() {
        None
    } else if squares[from as int].source == source {
        Some(from as usize)
    } else {
        find_source(squares, source, from + 1)
    }
}

/// The place in a new layout that an index into the squares on screen goes
/// to: that of the first square that stands for what the square at the
/// index stands for. An index beyond the squares on screen goes nowhere.
pub open spec fn carried_index(
    layout: Seq<VisualSquare>,
    shown: Seq<VisualSquare>,
    index: Option<usize>,
) -> Option<usize> {
    match index {
        Some(s) if s < shown.len() => find_source(layout, shown[s as int].source, 0),
        _ => None,
    }
}

/// The interaction state that a new layout takes over from the squares on
/// screen: what was selected stays selected and what was hovered over stays
/// hovered over, each by the entry that it stands for; a drag ends.
pub open spec fn carried_state(
    layout: Seq<VisualSquare>,
    shown: Seq<VisualSquare>,
    state: InteractionState,
) -> InteractionState {
    InteractionState {
        hovered: carried_index(layout, shown, state.hovered),
        selected: carried_index(layout, shown, state.selected),
        dragging: None,
    }
}

/// The square at place `i` of a new layout with what it takes over from
/// the squares that were on screen: where one of them stood for the same
/// entry, the square starts from the rectangle that one was shown at. It is
/// selected if it is the one that the state has selected, and hovered over
/// if it is the one that the state has hovered over.
pub open spec fn carry(
    square: VisualSquare,
    i: int,
    shown: Seq<VisualSquare>,
    was_animating: bool,
    state: InteractionState,
) -> VisualSquare {
    VisualSquare {
        prev_rect: match find_source(shown, square.source, 0) {
            Some(j) => Some(shown[j as int].spec_displayed_rect(was_animating)),
            None => square.prev_rect,
        },
        selected: state.selected == Some(i as usize),
        hovered: state.hovered == Some(i as usize),
        ..square
    }
}

/// A new layout with what each square takes over from the squares that
/// were on screen, which `state` was the interaction state of.
pub open spec fn carried(
    layout: Seq<VisualSquare>,
    shown: Seq<VisualSquare>,
    was_animating: bool,
    state: InteractionState,
) -> Seq<VisualSquare> {
    Seq::new(
        layout.len(),
        |i: int| carry(layout[i], i, shown, was_animating, carried_state(layout, shown, state)),
    )
}

/// The flags of the squares say what the state says: a square is selected
/// if and only if it is the selected one, hovered over if and only if it is
/// the hovered one, and every index of the state is within the list.
pub open spec fn flags_agree(squares: Seq<VisualSquare>, state: InteractionState) -> bool {
    &&& state.within(squares.len())
    &&& forall|i: int|
        0 <= i < squares.len() ==> {
            &&& (#[trigger] squares[i]).selected == (state.selected == Some(i as usize))
            &&& squares[i].hovered == (state.hovered == Some(i as usize))
        }
}

/// A square with its animation moved on: the progress is the eased one,
/// and once the animation is over there is no previous rectangle.
pub open spec fn advanced(square: VisualSquare, eased: int, finished: bool) -> VisualSquare {
    VisualSquare {
        animation_progress: eased as i64,
        prev_rect: if finished {
            None
        } else {
            square.prev_rect
        },
        ..square
    }
}

/// Shows a directory as squares on a canvas.
pub struct Visualizer {
    /// The directory on show.
    pub root_entry: Option<DirectoryEntry>,
    /// The squares on the canvas.
    pub squares: Vec<VisualSquare>,
    /// Which square is hovered over, selected, dragged.
    pub interaction: InteractionState,
    /// The zoom factors and the clock of the running transition.
    pub animation: AnimationState,
    /// The layout strategy in use.
    pub layout_type: LayoutType,
    /// Size of the canvas.
    pub canvas: Size,
    /// Layouts of the directory on show that were computed before.
    pub layout_cache: LayoutCache,
}

impl Visualizer {
    /// Every cached layout is a layout of the directory on show.
    pub open spec fn cache_valid(self) -> bool {
        &&& self.layout_cache.wf()
        &&& forall|key: KeyView| #[trigger]
            self.layout_cache@.contains_key(key) ==> {
                &&& self.root_entry is Some
                &&& key.0 == self.root_entry->0.path@
                &&& self.layout_cache@[key] == layout_spec(
                    self.root_entry->0,
                    key.1 as int,
                    key.2,
                    self.canvas,
                )
                &&& all_wf(self.layout_cache@[key])
            }
    }

    /// The state is consistent: the animation and every square are well
    /// formed, the flags of the squares agree with the interaction state,
    /// the weights of the directory on show fit, there are no squares
    /// without a directory, and the cache is valid.
    pub open spec fn wf(self) -> bool {
        &&& self.animation.wf()
        &&& all_wf(self.squares@)
        &&& flags_agree(self.squares@, self.interaction)
        &&& self.root_entry matches Some(root) ==> root.weights_fit()
        &&& self.root_entry is None ==> self.squares@.len() == 0
        &&& self.cache_valid()
    }

    /// The layout of the directory on show at the target zoom; nothing
    /// where no directory is on show.
    pub open spec fn layout(self) -> Seq<VisualSquare> {
        match self.root_entry {
            Some(root) => layout_spec(
                root,
                self.animation.target_zoom as int,
                self.layout_type,
                self.canvas,
            ),
            None => Seq::empty(),
        }
    }

    /// A visualizer without a directory, at the smallest zoom, with the
    /// grid layout on a canvas of 800 by 600 pixels.
    pub fn new() -> (visualizer: Visualizer)
        ensures
            visualizer.wf(),
            visualizer.root_entry is None,
            visualizer.squares@.len() == 0,
            visualizer.interaction == InteractionState::new_spec(),
            visualizer.animation.current_zoom == MIN_ZOOM,
            visualizer.animation.target_zoom == MIN_ZOOM,
            !visualizer.animation.animating,
            visualizer.layout_type == LayoutType::Grid,
            visualizer.canvas == (Size {
                width: DEFAULT_CANVAS_WIDTH,
                height: DEFAULT_CANVAS_HEIGHT,
            }),
    {
        Visualizer {
            root_entry: None,
            squares: Vec::new(),
            interaction: InteractionState::new(),
            animation: AnimationState::new(),
            layout_type: LayoutType::Grid,
            canvas: Size { width: DEFAULT_CANVAS_WIDTH, height: DEFAULT_CANVAS_HEIGHT },
            layout_cache: LayoutCache::new(),
        }
    }

    /// The zoom factor that is on screen.
    pub fn zoom_factor(&self) -> (zoom: i64)
        ensures
            zoom == self.animation.current_zoom,
    {
        self.animation.current_zoom
    }

    /// The zoom factor that the running transition ends at.
    pub fn target_zoom_factor(&self) -> (zoom: i64)
        ensures
            zoom == self.animation.target_zoom,
    {
        self.animation.target_zoom
    }

    /// Whether a transition is running.
    pub fn is_animating(&self) -> (animating: bool)
        ensures
            animating == self.animation.animating,
    {
        self.animation.animating
    }

    /// The layout of the directory on show at the target zoom, from the
    /// cache where it is there, else computed and cached.
    pub fn current_layout(&mut self) -> (squares: Vec<VisualSquare>)
        requires
            old(self).wf(),
        ensures
            final(self).wf(),
            squares@ == old(self).layout(),
            all_wf(squares@),
            final(self).root_entry == old(self).root_entry,
            final(self).squares == old(self).squares,
            final(self).interaction == old(self).interaction,
            final(self).animation == old(self).animation,
            final(self).layout_type == old(self).layout_type,
            final(self).canvas == old(self).canvas,
    {
        match &self.root_entry {
            Some(root) => {
                let zoom: i64 = self.animation.target_zoom;
                match self.layout_cache.get(&root.path, zoom, self.layout_type) {
                    Some(cached) => cached,
                    None => {
                        let squares = layout_with(root, zoom, self.layout_type, self.canvas);
                        let copy = copy_squares(&squares);
                        self.layout_cache.insert(root.path.clone(), zoom, self.layout_type, copy);
                        squares
                    },
                }
            },
            None => Vec::new(),
        }
    }

    /// Lays the directory on show out afresh: nothing moves, and nothing is
    /// hovered over, selected or dragged.
    pub fn generate_squares(&mut self)
        requires
            old(self).wf(),
        ensures
            final(self).wf(),
            final(self).squares@ == old(self).layout(),
            final(self).interaction == InteractionState::new_spec(),
            final(self).root_entry == old(self).root_entry,
            final(self).animation == old(self).animation,
            final(self).layout_type == old(self).layout_type,
            final(self).canvas == old(self).canvas,
    {
        let squares = self.current_layout();
        proof {
            if self.root_entry is Some {
                crate::layout::laws::law_layouts_are_at_rest(
                    self.root_entry->0,
                    self.animation.target_zoom as int,
                    self.layout_type,
                    self.canvas,
                );
            }
        }
        self.squares = squares;
        self.interaction = InteractionState::new();
    }

    /// Puts a directory on show: every cached layout is forgotten and the
    /// directory is laid out afresh.
    pub fn set_root_entry(&mut self, entry: DirectoryEntry)
        requires
            old(self).wf(),
            entry.weights_fit(),
        ensures
            final(self).wf(),
            final(self).root_entry == Some(entry),
            final(self).squares@ == layout_spec(
                entry,
                old(self).animation.target_zoom as int,
                old(self).layout_type,
                old(self).canvas,
            ),
            final(self).interaction == InteractionState::new_spec(),
            final(self).animation == old(self).animation,
            final(self).layout_type == old(self).layout_type,
            final(self).canvas == old(self).canvas,
    {
        self.root_entry = Some(entry);
        self.layout_cache.clear();
        self.squares = Vec::new();
        self.interaction = InteractionState::new();
        self.generate_squares();
    }

    /// Gives the visualizer a canvas of another size: every cached layout
    /// is forgotten and the directory is laid out afresh.
    pub fn set_canvas(&mut self, canvas: Size)
        requires
            old(self).wf(),
        ensures
            final(self).wf(),
            final(self).canvas == canvas,
            final(self).squares@ == final(self).layout(),
            final(self).interaction == InteractionState::new_spec(),
            final(self).root_entry == old(self).root_entry,
            final(self).animation == old(self).animation,
            final(self).layout_type == old(self).layout_type,
    {
        self.canvas = canvas;
        self.layout_cache.clear();
        self.squares = Vec::new();
        self.interaction = InteractionState::new();
        self.generate_squares();
    }

    /// Lays the directory on show out anew and lets each square start from
    /// where the square for the same entry is on screen now.
    pub fn relayout(&mut self, was_animating: bool)
        requires
            old(self).wf(),
        ensures
            final(self).wf(),
            final(self).squares@ == carried(
                old(self).layout(),
                old(self).squares@,
                was_animating,
                old(self).interaction,
            ),
            final(self).interaction == carried_state(
                old(self).layout(),
                old(self).squares@,
                old(self).interaction,
            ),
            final(self).root_entry == old(self).root_entry,
            final(self).animation == old(self).animation,
            final(self).layout_type == old(self).layout_type,
            final(self).canvas == old(self).canvas,
    {
        let fresh = self.current_layout();
        let (squares, state) = carry_over(&fresh, &self.squares, was_animating, self.interaction);
        self.squares = squares;
        self.interaction = state;
    }

    /// Begins a transition at `now`: the squares move from their previous
    /// rectangles, where they have any, to where they belong. The zoom
    /// factors, the squares and everything else stay as they are.
    pub fn begin_transition(&mut self, now: u64)
        requires
            old(self).wf(),
        ensures
            final(self).wf(),
            final(self).animation == (AnimationState {
                animating: true,
                start_time: now,
                ..old(self).animation
            }),
            final(self).squares == old(self).squares,
            final(self).interaction == old(self).interaction,
            final(self).root_entry == old(self).root_entry,
            final(self).layout_type == old(self).layout_type,
            final(self).canvas == old(self).canvas,
            final(self).layout_cache == old(self).layout_cache,
    {
        self.animation.animating = true;
        self.animation.start_time = now;
    }

    /// Switches to another layout strategy. Where it differs from the one
    /// in use, the squares move from where they are on screen to their
    /// places in the new layout, in a transition that begins at `now`.
    pub fn set_layout_type(&mut self, layout_type: LayoutType, now: u64)
        requires
            old(self).wf(),
        ensures
            final(self).wf(),
            final(self).layout_type == layout_type,
            final(self).root_entry == old(self).root_entry,
            final(self).canvas == old(self).canvas,
            layout_type == old(self).layout_type ==> {
                &&& final(self).squares == old(self).squares
                &&& final(self).interaction == old(self).interaction
                &&& final(self).animation == old(self).animation
            },
            layout_type != old(self).layout_type ==> {
                &&& final(self).animation == (AnimationState {
                    animating: true,
                    start_time: now,
                    ..old(self).animation
                })
                &&& final(self).squares@ == carried(
                    final(self).layout(),
                    old(self).squares@,
                    old(self).animation.animating,
                    old(self).interaction,
                )
                &&& final(self).interaction == carried_state(
                    final(self).layout(),
                    old(self).squares@,
                    old(self).interaction,
                )
            },
    {
        if self.layout_type == layout_type {
            return ;
        }
        let was_animating: bool = self.animation.animating;
        self.layout_type = layout_type;
        self.animation.animating = true;
        self.animation.start_time = now;
        self.relayout(was_animating);
    }

    /// Asks for the zoom to change by `delta`. Where that moves the target
    /// by at least `ZOOM_EPSILON`, the directory is laid out for the new
    /// target and a transition toward it begins at `now`, each square
    /// starting from where it is on screen. A request while a transition
    /// runs takes its place. The result tells whether the target moved.
    pub fn request_zoom(&mut self, delta: i64, now: u64) -> (changed: bool)
        requires
            old(self).wf(),
        ensures
            final(self).wf(),
            final(self).animation.target_zoom == next_target(
                old(self).animation.target_zoom as int,
                delta as int,
            ),
            changed == (final(self).animation.target_zoom != old(self).animation.target_zoom),
            final(self).animation.current_zoom == old(self).animation.current_zoom,
            final(self).root_entry == old(self).root_entry,
            final(self).layout_type == old(self).layout_type,
            final(self).canvas == old(self).canvas,
            !changed ==> {
                &&& final(self).squares == old(self).squares
                &&& final(self).interaction == old(self).interaction
                &&& final(self).animation == old(self).animation
            },
            changed ==> {
                &&& final(self).animation.animating
                &&& final(self).animation.start_time == now
                &&& final(self).squares@ == carried(
                    final(self).layout(),
                    old(self).squares@,
                    old(self).animation.animating,
                    old(self).interaction,
                )
                &&& final(self).interaction == carried_state(
                    final(self).layout(),
                    old(self).squares@,
                    old(self).interaction,
                )
            },
    {
        let was_animating: bool = self.animation.animating;
        let target: i64 = self.animation.requested_target(delta);
        if target == self.animation.target_zoom {
            return false;
        }
        match &self.root_entry {
            Some(root) => {
                self.layout_cache.remove(&root.path, target, self.layout_type);
            },
            None => {},
        }
        let changed: bool = self.animation.request_zoom(delta, now);
        self.relayout(was_animating);
        changed
    }

    /// Zooms one step in or out: asks for the zoom to change by `ZOOM_STEP`
    /// in that direction, as `request_zoom` does.
    pub fn zoom(&mut self, zoom_in: bool, now: u64)
        requires
            old(self).wf(),
        ensures
            final(self).wf(),
            final(self).animation.target_zoom == next_target(
                old(self).animation.target_zoom as int,
                if zoom_in {
                    ZOOM_STEP as int
                } else {
                    -ZOOM_STEP
                },
            ),
            MIN_ZOOM <= final(self).animation.target_zoom <= MAX_ZOOM,
            final(self).animation.current_zoom == old(self).animation.current_zoom,
            final(self).root_entry == old(self).root_entry,
            final(self).layout_type == old(self).layout_type,
            final(self).canvas == old(self).canvas,
            final(self).animation.target_zoom == old(self).animation.target_zoom ==> {
                &&& final(self).squares == old(self).squares
                &&& final(self).interaction == old(self).interaction
                &&& final(self).animation == old(self).animation
            },
            final(self).animation.target_zoom != old(self).animation.target_zoom ==> {
                &&& final(self).animation.animating
                &&& final(self).animation.start_time == now
                &&& final(self).squares@ == carried(
                    final(self).layout(),
                    old(self).squares@,
                    old(self).animation.animating,
                    old(self).interaction,
                )
                &&& final(self).interaction == carried_state(
                    final(self).layout(),
                    old(self).squares@,
                    old(self).interaction,
                )
            },
    {
        let delta: i64 = if zoom_in {
            ZOOM_STEP
        } else {
            -ZOOM_STEP
        };
        let _changed = self.request_zoom(delta, now);
    }

    /// Advances the running transition to time `now`: the zoom on screen
    /// moves toward the target and every square gets the eased progress.
    /// Once the whole duration has passed, the zoom on screen is the
    /// target, no square has a previous rectangle and nothing moves any
    /// more. At rest nothing changes.
    pub fn update_animation(&mut self, now: u64)
        requires
            old(self).wf(),
        ensures
            final(self).wf(),
            final(self).root_entry == old(self).root_entry,
            final(self).layout_type == old(self).layout_type,
            final(self).canvas == old(self).canvas,
            final(self).interaction == old(self).interaction,
            final(self).layout_cache == old(self).layout_cache,
            final(self).animation.target_zoom == old(self).animation.target_zoom,
            final(self).animation.start_time == old(self).animation.start_time,
            final(self).animation.duration == old(self).animation.duration,
            old(self).animation.current_zoom <= old(self).animation.target_zoom ==> {
                &&& old(self).animation.current_zoom <= final(self).animation.current_zoom
                &&& final(self).animation.current_zoom <= old(self).animation.target_zoom
            },
            old(self).animation.current_zoom >= old(self).animation.target_zoom ==> {
                &&& old(self).animation.current_zoom >= final(self).animation.current_zoom
                &&& final(self).animation.current_zoom >= old(self).animation.target_zoom
            },
            !old(self).animation.animating ==> {
                &&& final(self).squares == old(self).squares
                &&& final(self).animation == old(self).animation
            },
            old(self).animation.animating ==> {
                let p = progress_spec(
                    old(self).animation.start_time as int,
                    old(self).animation.duration as int,
                    now as int,
                );
                &&& final(self).animation.animating == (p < SCALE)
                &&& p < SCALE ==> final(self).animation.current_zoom == lerp_spec(
                    old(self).animation.current_zoom as int,
                    old(self).animation.target_zoom as int,
                    ease_spec(p),
                )
                &&& p >= SCALE ==> final(self).animation.current_zoom == old(self).animation.target_zoom
                &&& final(self).squares@.len() == old(self).squares@.len()
                &&& forall|i: int|
                    0 <= i < old(self).squares@.len() ==> (#[trigger] final(self).squares@[i])
                        == advanced(old(self).squares@[i], ease_spec(p), p >= SCALE)
            },
    {
        let eased: i64 = match self.animation.tick(now) {
            Some(eased) => eased,
            None => {
                return ;
            },
        };
        let finished: bool = !self.animation.animating;
        let n: usize = self.squares.len();
        let ghost before = self.squares@;
        let ghost ticked = self.animation;
        let mut i: usize = 0;
        while i < n
            invariant
                n == before.len(),
                self.squares@.len() == n,
                i <= n,
                0 <= eased <= SCALE,
                all_wf(before),
                self.root_entry == old(self).root_entry,
                self.layout_type == old(self).layout_type,
                self.canvas == old(self).canvas,
                self.interaction == old(self).interaction,
                self.layout_cache == old(self).layout_cache,
                self.animation == ticked,
                self.animation.wf(),
                self.animation.animating == !finished,
                forall|j: int| i <= j < n ==> self.squares@[j] == before[j],
                forall|j: int|
                    0 <= j < i ==> (#[trigger] self.squares@[j]) == advanced(
                        before[j],
                        eased as int,
                        finished,
                    ),
                forall|j: int| 0 <= j < i ==> (#[trigger] self.squares@[j]).wf(),
            decreases n - i,
        {
            let mut square = self.squares[i];
            square.animation_progress = eased;
            if finished {
                square.prev_rect = None;
            }
            self.squares.set(i, square);
            i = i + 1;
        }
    }

    /// Takes one frame of pointer input: finds the square under the
    /// pointer, selects it on a click and moves the dragged square, as
    /// `InteractionState::update` says. The result tells what was selected
    /// and what to drill down into; replacing the directory on show is left
    /// to the caller.
    pub fn handle_interaction(
        &mut self,
        pointer: Option<Point>,
        clicked: bool,
        primary_down: bool,
    ) -> (outcome: InteractionOutcome)
        requires
            old(self).wf(),
            pointer matches Some(p) ==> p.in_range(),
        ensures
            final(self).wf(),
            final(self).root_entry == old(self).root_entry,
            final(self).animation == old(self).animation,
            final(self).layout_type == old(self).layout_type,
            final(self).canvas == old(self).canvas,
            final(self).layout_cache == old(self).layout_cache,
            final(self).squares@.len() == old(self).squares@.len(),
            final(self).interaction.within(final(self).squares@.len()),
            hover_spec(old(self).squares@, old(self).animation.animating, pointer) is None ==> {
                &&& final(self).interaction.selected == old(self).interaction.selected
                &&& forall|i: int|
                    0 <= i < old(self).squares@.len() ==> (#[trigger] final(self).squares@[i]).selected
                        == old(self).squares@[i].selected
            },
            final(self).interaction.hovered == hover_spec(
                old(self).squares@,
                old(self).animation.animating,
                pointer,
            ),
            final(self).interaction.selected == selection_spec(
                old(self).interaction.selected,
                old(self).squares@.len(),
                final(self).interaction.hovered,
                clicked,
            ),
            final(self).interaction.dragging == dragging_spec(
                old(self).interaction.dragging,
                old(self).squares@.len(),
                final(self).interaction.hovered,
                pointer,
                primary_down,
            ),
            forall|i: int|
                0 <= i < old(self).squares@.len() ==> (#[trigger] final(self).squares@[i])
                    == square_after(
                    old(self).squares@[i],
                    i,
                    final(self).interaction.hovered,
                    final(self).interaction.selected,
                    moved_spec(
                        old(self).interaction.dragging,
                        old(self).squares@.len(),
                        pointer,
                        primary_down,
                    ),
                    pointer,
                ),
            outcome.selected == (if clicked {
                final(self).interaction.hovered
            } else {
                None
            }),
            outcome.drill_down == (if clicked && final(self).interaction.hovered is Some
                && old(self).root_entry is Some && opens_directory(
                old(self).root_entry->0,
                old(self).squares@[final(self).interaction.hovered->0 as int].source,
            ) {
                Some(old(self).squares@[final(self).interaction.hovered->0 as int].source)
            } else {
                None
            }),
    {
        match &self.root_entry {
            Some(root) => self.interaction.update(
                &mut self.squares,
                root,
                self.animation.animating,
                pointer,
                clicked,
                primary_down,
            ),
            None => {
                proof {
                    if pointer is Some {
                        crate::interaction::lemma_first_hit(
                            self.squares@,
                            self.animation.animating,
                            pointer->0,
                            0,
                        );
                    }
                }
                self.interaction = InteractionState::new();
                InteractionOutcome { selected: None, drill_down: None }
            },
        }
    }
}

/// The index of the first square that stands for `source`.
pub fn find_by_source(squares: &Vec<VisualSquare>, source: SquareSource) -> (found: Option<usize>)
    ensures
        found == find_source(squares@, source, 0),
        found matches Some(j) ==> j < squares@.len(),
{
    let n: usize = squares.len();
    let mut i: usize = 0;
    while i < n
        invariant
            n == squares@.len(),
            i <= n,
            find_source(squares@, source, 0) == find_source(squares@, source, i as nat),
        decreases n - i,
    {
        if squares[i].source == source {
            return Some(i);
        }
        i = i + 1;
    }
    None
}

/// The place in a new layout that an index into the squares on screen goes
/// to.
pub fn carry_index(
    layout: &Vec<VisualSquare>,
    shown: &Vec<VisualSquare>,
    index: Option<usize>,
) -> (goes_to: Option<usize>)
    ensures
        goes_to == carried_index(layout@, shown@, index),
        goes_to matches Some(g) ==> g < layout@.len(),
{
    match index {
        Some(s) => if s < shown.len() {
            find_by_source(layout, shown[s].source)
        } else {
            None
        },
        None => None,
    }
}

/// A new layout with what each square takes over from the squares on
/// screen, and the interaction state that goes with it.
pub fn carry_over(
    layout: &Vec<VisualSquare>,
    shown: &Vec<VisualSquare>,
    was_animating: bool,
    state: InteractionState,
) -> (carried_over: (Vec<VisualSquare>, InteractionState))
    requires
        all_wf(layout@),
        all_wf(shown@),
    ensures
        carried_over.0@ == carried(layout@, shown@, was_animating, state),
        carried_over.1 == carried_state(layout@, shown@, state),
        all_wf(carried_over.0@),
        flags_agree(carried_over.0@, carried_over.1),
{
    let goes_to = InteractionState {
        hovered: carry_index(layout, shown, state.hovered),
        selected: carry_index(layout, shown, state.selected),
        dragging: None,
    };
    let mut squares: Vec<VisualSquare> = Vec::new();
    let n: usize = layout.len();
    let mut i: usize = 0;
    while i < n
        invariant
            n == layout@.len(),
            i <= n,
            all_wf(layout@),
            all_wf(shown@),
            goes_to == carried_state(layout@, shown@, state),
            goes_to.within(n as nat),
            squares@.len() == i,
            forall|j: int|
                0 <= j < i ==> (#[trigger] squares@[j]) == carry(
                    layout@[j],
                    j,
                    shown@,
                    was_animating,
                    goes_to,
                ),
            all_wf(squares@),
        decreases n - i,
    {
        let mut square = layout[i];
        match find_by_source(shown, square.source) {
            Some(j) => {
                let rect: Rect = shown[j].displayed_rect(was_animating);
                square.prev_rect = Some(rect);
            },
            None => {},
        }
        square.selected = is_index(goes_to.selected, i);
        square.hovered = is_index(goes_to.hovered, i);
        squares.push(square);
        i = i + 1;
    }
    assert(squares@ =~= carried(layout@, shown@, was_animating, state));
    (squares, goes_to)
}

} // verus!
