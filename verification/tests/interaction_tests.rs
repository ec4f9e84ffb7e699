use git_scroll::directory::DirectoryEntry;
use git_scroll::geometry::{Point, Rect};
use git_scroll::interaction::{find_hit, InteractionOutcome, InteractionState};
use git_scroll::layout::{SquareSource, VisualSquare};
use git_scroll::visualization::Visualizer;

fn file(name: &str) -> DirectoryEntry {
    DirectoryEntry {
        name: name.to_string(),
        path: format!("/repo/{}", name),
        is_directory: false,
        size_bytes: Some(10),
        children: Vec::new(),
    }
}

fn dir(name: &str, children: Vec<DirectoryEntry>) -> DirectoryEntry {
    DirectoryEntry {
        name: name.to_string(),
        path: format!("/repo/{}", name),
        is_directory: true,
        size_bytes: None,
        children,
    }
}

fn root() -> DirectoryEntry {
    dir("root", vec![file("a"), dir("b", vec![file("inner")]), file("c")])
}

fn three_squares() -> Vec<VisualSquare> {
    vec![
        VisualSquare::fresh(
            SquareSource::Child(0),
            Rect::from_min_size(0, 0, 100_000, 100_000),
            333,
        ),
        VisualSquare::fresh(
            SquareSource::Child(1),
            Rect::from_min_size(200_000, 0, 100_000, 100_000),
            333,
        ),
        VisualSquare::fresh(
            SquareSource::Child(2),
            Rect::from_min_size(400_000, 0, 100_000, 100_000),
            333,
        ),
    ]
}

fn at(x: i64, y: i64) -> Option<Point> {
    Some(Point { x, y })
}

#[test]
fn the_pointer_hovers_over_the_one_square_it_is_in() {
    let mut squares = three_squares();
    let mut state = InteractionState::new();
    let outcome = state.update(&mut squares, &root(), false, at(250_000, 50_000), false, false);
    assert_eq!(state.hovered, Some(1));
    assert_eq!(state.selected, None);
    assert_eq!(state.dragging, None);
    assert_eq!(outcome, InteractionOutcome { selected: None, drill_down: None });
    assert!(!squares[0].hovered);
    assert!(squares[1].hovered);
    assert!(!squares[2].hovered);
    assert!(squares.iter().all(|s| !s.selected));
}

#[test]
fn a_click_selects_the_hovered_square_and_deselects_the_previous_one() {
    let mut squares = three_squares();
    let mut state = InteractionState::new();
    let outcome = state.update(&mut squares, &root(), false, at(450_000, 50_000), true, false);
    assert_eq!(state.selected, Some(2));
    assert_eq!(outcome.selected, Some(2));
    assert_eq!(outcome.drill_down, None);
    assert!(squares[2].selected);
    let outcome = state.update(&mut squares, &root(), false, at(50_000, 50_000), true, false);
    assert_eq!(state.hovered, Some(0));
    assert_eq!(state.selected, Some(0));
    assert_eq!(outcome.selected, Some(0));
    assert!(squares[0].selected);
    assert!(!squares[1].selected);
    assert!(!squares[2].selected);
}

#[test]
fn a_click_on_a_directory_asks_to_drill_down() {
    let mut squares = three_squares();
    let mut state = InteractionState::new();
    let outcome = state.update(&mut squares, &root(), false, at(250_000, 50_000), true, false);
    assert_eq!(outcome.selected, Some(1));
    assert_eq!(outcome.drill_down, Some(SquareSource::Child(1)));
    // The bucket of small files opens like a directory.
    squares[0].source = SquareSource::Others;
    let outcome = state.update(&mut squares, &root(), false, at(50_000, 50_000), true, false);
    assert_eq!(outcome.drill_down, Some(SquareSource::Others));
    // A square whose child is gone does not.
    squares[2].source = SquareSource::Child(17);
    let outcome = state.update(&mut squares, &root(), false, at(450_000, 50_000), true, false);
    assert_eq!(outcome.selected, Some(2));
    assert_eq!(outcome.drill_down, None);
}

#[test]
fn a_click_beside_every_square_keeps_the_selection() {
    let mut squares = three_squares();
    let mut state = InteractionState::new();
    state.update(&mut squares, &root(), false, at(50_000, 50_000), true, false);
    let outcome = state.update(&mut squares, &root(), false, at(150_000, 50_000), true, false);
    assert_eq!(state.hovered, None);
    assert_eq!(state.selected, Some(0));
    assert_eq!(outcome, InteractionOutcome { selected: None, drill_down: None });
    assert!(squares[0].selected);
    assert!(squares.iter().all(|s| !s.hovered));
    // Without a pointer nothing is hovered.
    state.update(&mut squares, &root(), false, None, true, true);
    assert_eq!(state.hovered, None);
    assert_eq!(state.selected, Some(0));
}

#[test]
fn edges_belong_to_the_square_and_the_first_square_wins() {
    let mut squares = three_squares();
    squares[1].rect = Rect::from_min_size(100_000, 0, 100_000, 100_000);
    assert_eq!(find_hit(&squares, false, Point { x: 100_000, y: 100_000 }), Some(0));
    assert_eq!(find_hit(&squares, false, Point { x: 100_001, y: 100_000 }), Some(1));
    assert_eq!(find_hit(&squares, false, Point { x: 100_001, y: 100_001 }), None);
    assert_eq!(find_hit(&squares, false, Point { x: 0, y: 0 }), Some(0));
    assert_eq!(find_hit(&squares, false, Point { x: -1, y: 0 }), None);
}

#[test]
fn hit_testing_uses_the_rectangle_on_screen() {
    let mut squares = three_squares();
    // The first square is half way from x = 1000 to x = 0.
    squares[0].prev_rect = Some(Rect::from_min_size(1_000_000, 0, 100_000, 100_000));
    squares[0].animation_progress = 500;
    let p = Point { x: 550_000, y: 50_000 };
    assert_eq!(find_hit(&squares, true, p), Some(0));
    assert_eq!(find_hit(&squares, false, p), None);
    assert_eq!(find_hit(&squares, true, Point { x: 50_000, y: 50_000 }), None);
    assert_eq!(
        squares[0].displayed_rect(true),
        Rect { min_x: 500_000, min_y: 0, max_x: 600_000, max_y: 100_000 }
    );
    assert_eq!(squares[0].displayed_rect(false), squares[0].rect);
}

#[test]
fn a_dragged_square_follows_the_pointer_until_release() {
    let mut squares = three_squares();
    let mut state = InteractionState::new();
    // Press on the first square: the drag begins, nothing moves yet.
    state.update(&mut squares, &root(), false, at(10_000, 10_000), false, true);
    assert_eq!(state.dragging, Some(0));
    assert_eq!(squares[0].rect, Rect::from_min_size(0, 0, 100_000, 100_000));
    // Hold and move: the square is centred on the pointer.
    state.update(&mut squares, &root(), false, at(300_000, 400_000), false, true);
    assert_eq!(state.dragging, Some(0));
    assert_eq!(
        squares[0].rect,
        Rect { min_x: 250_000, min_y: 350_000, max_x: 350_000, max_y: 450_000 }
    );
    // The other squares stay.
    assert_eq!(squares[1].rect, Rect::from_min_size(200_000, 0, 100_000, 100_000));
    // Without a pointer the drag is kept and nothing moves.
    state.update(&mut squares, &root(), false, None, false, true);
    assert_eq!(state.dragging, Some(0));
    assert_eq!(squares[0].rect.min_x, 250_000);
    // Release.
    state.update(&mut squares, &root(), false, at(300_000, 400_000), false, false);
    assert_eq!(state.dragging, None);
    assert_eq!(squares[0].rect.min_x, 250_000);
}

#[test]
fn a_press_beside_every_square_drags_nothing() {
    let mut squares = three_squares();
    let mut state = InteractionState::new();
    state.update(&mut squares, &root(), false, at(150_000, 50_000), false, true);
    assert_eq!(state.dragging, None);
    state.update(&mut squares, &root(), false, at(250_000, 50_000), false, true);
    // The button is still down and the pointer is over a square now.
    assert_eq!(state.dragging, Some(1));
}

#[test]
fn stale_indices_count_as_none() {
    let mut squares = three_squares();
    let mut state = InteractionState { hovered: Some(7), selected: Some(3), dragging: Some(99) };
    let outcome = state.update(&mut squares, &root(), false, None, false, true);
    assert_eq!(state, InteractionState { hovered: None, selected: None, dragging: None });
    assert_eq!(outcome, InteractionOutcome { selected: None, drill_down: None });
    assert_eq!(squares, three_squares());
    let mut state = InteractionState { hovered: Some(2), selected: Some(2), dragging: Some(3) };
    state.update(&mut squares, &root(), false, at(50_000, 50_000), false, true);
    assert_eq!(state.selected, Some(2));
    assert!(squares[2].selected);
    // The stale drag is gone and a new one begins.
    assert_eq!(state.dragging, Some(0));
    let mut empty: Vec<VisualSquare> = Vec::new();
    let mut state = InteractionState { hovered: Some(0), selected: Some(0), dragging: Some(0) };
    state.update(&mut empty, &root(), false, at(0, 0), true, true);
    assert_eq!(state, InteractionState::new());
}

#[test]
fn revalidate_forgets_what_is_beyond_the_list() {
    let mut state = InteractionState { hovered: Some(2), selected: Some(3), dragging: Some(0) };
    state.revalidate(3);
    assert_eq!(state, InteractionState { hovered: Some(2), selected: None, dragging: Some(0) });
    state.revalidate(0);
    assert_eq!(state, InteractionState::new());
}

#[test]
fn the_visualizer_reports_clicks_on_its_squares() {
    let mut visualizer = Visualizer::new();
    let outcome = visualizer.handle_interaction(at(10, 10), true, true);
    assert_eq!(outcome, InteractionOutcome { selected: None, drill_down: None });
    visualizer.set_root_entry(root());
    // At zoom 1 the grid shows the directory only.
    assert_eq!(visualizer.squares.len(), 1);
    let rect = visualizer.squares[0].rect;
    let inside = Point { x: (rect.min_x + rect.max_x) / 2, y: (rect.min_y + rect.max_y) / 2 };
    let outcome = visualizer.handle_interaction(Some(inside), true, false);
    assert_eq!(visualizer.interaction.hovered, Some(0));
    assert_eq!(visualizer.interaction.selected, Some(0));
    assert!(visualizer.squares[0].selected);
    assert!(visualizer.squares[0].hovered);
    assert_eq!(outcome.selected, Some(0));
    assert_eq!(outcome.drill_down, Some(SquareSource::Child(1)));
    // The caller replaces the root.
    let child = visualizer.root_entry.as_ref().unwrap().children[1].clone();
    visualizer.set_root_entry(child);
    assert_eq!(visualizer.interaction, InteractionState::new());
    assert!(visualizer.squares.is_empty());
}

#[test]
fn pointers_far_away_are_out_of_range() {
    assert!(Point { x: 0, y: 0 }.is_in_range());
    assert!(Point { x: 1 << 47, y: -(1 << 47) }.is_in_range());
    assert!(!Point { x: (1 << 47) + 1, y: 0 }.is_in_range());
    assert!(!Point { x: 0, y: i64::MIN }.is_in_range());
}

#[test]
fn a_frame_beside_every_square_keeps_the_selection_and_the_cache() {
    let mut visualizer = Visualizer::new();
    visualizer.set_root_entry(dir("root", vec![dir("a", vec![]), dir("b", vec![])]));
    let first = visualizer.squares[0].rect;
    let inside = Point { x: (first.min_x + first.max_x) / 2, y: (first.min_y + first.max_y) / 2 };
    visualizer.handle_interaction(Some(inside), true, false);
    assert_eq!(visualizer.interaction.selected, Some(0));
    let cached = visualizer.layout_cache.len();
    let squares = visualizer.squares.clone();
    // A click where no square is changes neither selection nor cache.
    let outside = Point { x: -5_000_000, y: -5_000_000 };
    let outcome = visualizer.handle_interaction(Some(outside), true, false);
    assert_eq!(outcome, InteractionOutcome { selected: None, drill_down: None });
    assert_eq!(visualizer.interaction.hovered, None);
    assert_eq!(visualizer.interaction.selected, Some(0));
    assert_eq!(visualizer.layout_cache.len(), cached);
    assert!(visualizer.squares[0].selected);
    assert!(!visualizer.squares[1].selected);
    for (square, old) in visualizer.squares.iter().zip(squares.iter()) {
        assert_eq!(square.rect, old.rect);
        assert_eq!(square.source, old.source);
        assert_eq!(square.selected, old.selected);
        assert!(!square.hovered);
    }
    // Without a pointer it is the same.
    visualizer.handle_interaction(None, true, false);
    assert_eq!(visualizer.interaction.selected, Some(0));
    assert_eq!(visualizer.layout_cache.len(), cached);
}
