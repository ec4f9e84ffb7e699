use git_scroll::directory::DirectoryEntry;
use git_scroll::geometry::{Rect, Size};
use git_scroll::layout::detailed::{
    classify_files, generate_detailed_layout, grouped_files, others_entry,
};
use git_scroll::layout::force::{
    circle_start, cosine_of_turn, generate_force_directed_layout, node_size, sine_of_turn,
};
use git_scroll::layout::grid::{generate_grid_layout, grid_dimensions, scale_by_share};
use git_scroll::layout::treemap::{
    generate_squarified_treemap, generate_treemap_layout, has_fitting_strips, order_by_weight,
    treemap_weights,
};
use git_scroll::layout::{
    compute_layout, layout_for_zoom, select_children, try_compute_layout, LayoutType, Selection,
    SquareSource, VisualSquare, WeightRule,
};

fn file(name: &str, size: Option<u64>) -> DirectoryEntry {
    DirectoryEntry {
        name: name.to_string(),
        path: format!("/repo/{}", name),
        is_directory: false,
        size_bytes: size,
        children: Vec::new(),
    }
}

fn dir(name: &str, children: Vec<DirectoryEntry>) -> DirectoryEntry {
    DirectoryEntry {
        name: name.to_string(),
        path: format!("/repo/{}", name),
        is_directory: true,
        size_bytes: None,
        children,
    }
}

fn canvas(width: u32, height: u32) -> Size {
    Size { width, height }
}

fn sample_root() -> DirectoryEntry {
    dir(
        "root",
        vec![
            dir("src", vec![file("main.rs", Some(4000)), file("lib.rs", Some(2000))]),
            file("README.md", Some(3000)),
            dir("docs", vec![]),
            file("Cargo.toml", Some(500)),
            file("empty", Some(0)),
        ],
    )
}

fn sources(squares: &[VisualSquare]) -> Vec<SquareSource> {
    squares.iter().map(|s| s.source).collect()
}

#[test]
fn grid_of_one_entry_on_a_square_canvas_is_one_by_one() {
    assert_eq!(grid_dimensions(1, canvas(600, 600)), Some((1, 1)));
}

#[test]
fn grid_of_four_entries_on_a_square_canvas_is_two_by_two() {
    assert_eq!(grid_dimensions(4, canvas(600, 600)), Some((2, 2)));
}

#[test]
fn grid_follows_the_aspect_ratio() {
    // sqrt(1 * 800 / 600) is about 1.15, which rounds up to 2 columns.
    assert_eq!(grid_dimensions(1, canvas(800, 600)), Some((2, 1)));
    // sqrt(12 * 4 / 3) = 4 columns, 3 rows.
    assert_eq!(grid_dimensions(12, canvas(800, 600)), Some((4, 3)));
    // A tall canvas gets fewer columns: sqrt(12 * 3 / 4) = 3 columns, 4 rows.
    assert_eq!(grid_dimensions(12, canvas(600, 800)), Some((3, 4)));
}

#[test]
fn grid_has_no_dimensions_without_entries_or_area() {
    assert_eq!(grid_dimensions(0, canvas(800, 600)), None);
    assert_eq!(grid_dimensions(3, canvas(0, 600)), None);
    assert_eq!(grid_dimensions(3, canvas(800, 0)), None);
}

#[test]
fn grid_always_has_room_for_every_entry() {
    let canvases = [canvas(800, 600), canvas(600, 800), canvas(1, 1), canvas(4000, 3), canvas(3, 4000)];
    for c in canvases.iter() {
        for n in 1..200usize {
            let (cols, rows) = grid_dimensions(n, *c).unwrap();
            assert!(cols >= 1 && rows >= 1);
            assert!(cols * rows >= n as u64, "{} entries on {:?}", n, c);
            // One row less would not do.
            assert!(cols * (rows - 1) < n as u64);
        }
    }
}

#[test]
fn squares_are_scaled_by_a_half_plus_their_share() {
    // No weight: half the length.
    assert_eq!(scale_by_share(1000, 0, 5, 1001), 500);
    // The whole weight but for the one that the total is ahead.
    assert_eq!(scale_by_share(580000, 1000, 1, 1001), 869420);
    // An average share: the length as it is.
    assert_eq!(scale_by_share(1000, 100, 5, 1000), 1000);
    // The share times the number of entries is capped at the total.
    assert_eq!(scale_by_share(1000, 200, 5, 1000), 1500);
    assert_eq!(scale_by_share(1000, 999, 5, 1000), 1500);
    // Lengths below zero are scaled toward zero.
    assert_eq!(scale_by_share(-15, 0, 5, 1001), -7);
    assert_eq!(scale_by_share(-20000, 200, 5, 1000), -30000);
}

#[test]
fn grid_shows_directories_only_below_zoom_two() {
    let root = sample_root();
    let squares = generate_grid_layout(&root, canvas(800, 600), 1000);
    assert_eq!(sources(&squares), vec![SquareSource::Child(0), SquareSource::Child(2)]);
    let squares = generate_grid_layout(&root, canvas(800, 600), 1999);
    assert_eq!(squares.len(), 2);
}

#[test]
fn grid_shows_every_child_from_zoom_two() {
    let root = sample_root();
    let squares = generate_grid_layout(&root, canvas(800, 600), 2000);
    assert_eq!(
        sources(&squares),
        vec![
            SquareSource::Child(0),
            SquareSource::Child(1),
            SquareSource::Child(2),
            SquareSource::Child(3),
            SquareSource::Child(4),
        ]
    );
}

#[test]
fn grid_square_of_a_single_directory() {
    let root = dir("root", vec![dir("only", vec![])]);
    let squares = generate_grid_layout(&root, canvas(600, 600), 1000);
    assert_eq!(squares.len(), 1);
    let square = squares[0];
    // Weight 1000 of a total of 1001: the factor is 0.5 + 1000 / 1001.
    // The cell is 600 wide; without padding 580; scaled 869.42; centred.
    assert_eq!(
        square.rect,
        Rect { min_x: -134710, min_y: -134710, max_x: 734710, max_y: 734710 }
    );
    assert_eq!(square.size_weight, 999);
    assert!(!square.selected);
    assert!(!square.hovered);
    assert_eq!(square.animation_progress, 0);
    assert_eq!(square.prev_rect, None);
}

#[test]
fn grid_squares_fill_the_rows_from_left_to_right() {
    let children: Vec<DirectoryEntry> = (0..4).map(|i| dir(&format!("d{}", i), vec![])).collect();
    let root = dir("root", children);
    let squares = generate_grid_layout(&root, canvas(600, 600), 1000);
    assert_eq!(squares.len(), 4);
    // Two columns and two rows of cells 300 wide. Each weight is 1000 of
    // 4001, so the factor is 0.5 + 4000 / 4001 and each square is 419.93
    // wide, centred in its cell.
    let width = 280000 * (4001 + 2 * 4000) / (2 * 4001);
    assert_eq!(width, 419930);
    let offset = (300000 - width) / 2;
    for (k, square) in squares.iter().enumerate() {
        let col = (k % 2) as i64;
        let row = (k / 2) as i64;
        assert_eq!(square.rect.min_x, col * 300000 + offset);
        assert_eq!(square.rect.min_y, row * 300000 + offset);
        assert_eq!(square.rect.max_x - square.rect.min_x, width);
        assert_eq!(square.rect.max_y - square.rect.min_y, width);
        assert_eq!(square.size_weight, 249);
    }
}

#[test]
fn grid_weighs_files_by_size_with_a_floor() {
    assert_eq!(WeightRule::Grid.weigh(&file("a", Some(123))), 1000);
    assert_eq!(WeightRule::Grid.weigh(&file("a", Some(999))), 1000);
    assert_eq!(WeightRule::Grid.weigh(&file("a", Some(1000))), 1000);
    assert_eq!(WeightRule::Grid.weigh(&file("a", Some(1001))), 1001);
    assert_eq!(WeightRule::Grid.weigh(&file("a", Some(0))), 1000);
    assert_eq!(WeightRule::Grid.weigh(&file("a", None)), 1000);
    assert_eq!(WeightRule::Grid.weigh(&dir("d", vec![])), 1000);
    assert_eq!(WeightRule::Grid.weigh(&dir("d", vec![file("x", None), file("y", None)])), 3000);
    let mut sized = dir("d", vec![]);
    sized.size_bytes = Some(4096);
    assert_eq!(WeightRule::Grid.weigh(&sized), 4096);
}

#[test]
fn treemap_weighs_directories_by_children() {
    assert_eq!(WeightRule::Treemap.weigh(&dir("d", vec![])), 0);
    assert_eq!(WeightRule::Treemap.weigh(&dir("d", vec![file("x", None)])), 1000);
    assert_eq!(WeightRule::Treemap.weigh(&file("a", Some(0))), 0);
    assert_eq!(WeightRule::Treemap.weigh(&file("a", None)), 1000);
    assert_eq!(WeightRule::Treemap.weigh(&file("a", Some(77))), 77);
    assert_eq!(WeightRule::FileSize.weigh(&file("a", None)), 1000);
    assert_eq!(WeightRule::FileSize.weigh(&file("a", Some(5))), 5);
}

#[test]
fn selection_takes_children_in_order() {
    let root = sample_root();
    assert_eq!(select_children(&root.children, Selection::All), vec![0, 1, 2, 3, 4]);
    assert_eq!(select_children(&root.children, Selection::Directories), vec![0, 2]);
    assert_eq!(select_children(&root.children, Selection::Files), vec![1, 3, 4]);
}

#[test]
fn treemap_orders_children_by_descending_weight() {
    let root = dir(
        "root",
        vec![file("a", Some(300)), file("b", Some(100)), file("c", Some(200)), file("d", Some(300))],
    );
    let weights = treemap_weights(&root.children);
    assert_eq!(weights, vec![300, 100, 200, 300]);
    // Equal weights keep their order.
    assert_eq!(order_by_weight(&root.children, &weights), vec![0, 3, 2, 1]);
}

#[test]
fn treemap_tiles_the_padded_canvas() {
    let root = dir(
        "root",
        vec![file("a", Some(300)), file("b", Some(100)), file("c", Some(200))],
    );
    let squares = generate_treemap_layout(&root, canvas(1010, 510));
    assert_eq!(
        sources(&squares),
        vec![SquareSource::Child(0), SquareSource::Child(2), SquareSource::Child(1)]
    );
    assert_eq!(squares[0].rect, Rect { min_x: 5000, min_y: 5000, max_x: 505000, max_y: 505000 });
    assert_eq!(squares[1].rect, Rect { min_x: 505000, min_y: 5000, max_x: 838333, max_y: 505000 });
    assert_eq!(squares[2].rect, Rect { min_x: 838333, min_y: 5000, max_x: 1005000, max_y: 505000 });
    assert_eq!(squares[0].size_weight, 500);
    assert_eq!(squares[1].size_weight, 333);
    assert_eq!(squares[2].size_weight, 166);
}

#[test]
fn treemap_slices_a_tall_canvas_from_top_to_bottom() {
    let root = dir("root", vec![file("a", Some(1)), file("b", Some(3))]);
    let squares = generate_treemap_layout(&root, canvas(210, 410));
    assert_eq!(sources(&squares), vec![SquareSource::Child(1), SquareSource::Child(0)]);
    assert_eq!(squares[0].rect, Rect { min_x: 5000, min_y: 5000, max_x: 205000, max_y: 305000 });
    assert_eq!(squares[1].rect, Rect { min_x: 5000, min_y: 305000, max_x: 205000, max_y: 405000 });
}

fn assert_tiles(squares: &[VisualSquare], c: Size) {
    let left = 5000;
    let top = 5000;
    let right = c.width as i64 * 1000 - 5000;
    let bottom = c.height as i64 * 1000 - 5000;
    let horizontal = c.width >= c.height;
    let mut edge = if horizontal { left } else { top };
    for square in squares {
        let r = square.rect;
        if horizontal {
            assert_eq!(r.min_x, edge);
            assert!(r.max_x >= r.min_x);
            assert_eq!((r.min_y, r.max_y), (top, bottom));
            edge = r.max_x;
        } else {
            assert_eq!(r.min_y, edge);
            assert!(r.max_y >= r.min_y);
            assert_eq!((r.min_x, r.max_x), (left, right));
            edge = r.max_y;
        }
    }
    assert_eq!(edge, if horizontal { right } else { bottom });
}

#[test]
fn treemap_tiles_for_equal_weights() {
    let children: Vec<DirectoryEntry> = (0..7).map(|i| file(&format!("f{}", i), Some(10))).collect();
    let root = dir("root", children);
    let c = canvas(800, 600);
    let squares = generate_treemap_layout(&root, c);
    assert_eq!(squares.len(), 7);
    assert_tiles(&squares, c);
}

#[test]
fn treemap_tiles_with_one_dominant_child() {
    let mut children: Vec<DirectoryEntry> =
        (0..9).map(|i| file(&format!("f{}", i), Some(1))).collect();
    children.push(file("huge", Some(1_000_000_000_000)));
    let root = dir("root", children);
    for c in [canvas(800, 600), canvas(600, 800), canvas(11, 11)].iter() {
        let squares = generate_treemap_layout(&root, *c);
        assert_eq!(squares.len(), 10);
        assert_eq!(squares[0].source, SquareSource::Child(9));
        assert_tiles(&squares, *c);
    }
}

#[test]
fn treemap_of_weightless_children_has_empty_strips() {
    let root = dir("root", vec![file("a", Some(0)), dir("b", vec![])]);
    let squares = generate_treemap_layout(&root, canvas(800, 600));
    assert_eq!(squares.len(), 2);
    for square in &squares {
        assert_eq!(square.rect, Rect { min_x: 5000, min_y: 5000, max_x: 5000, max_y: 595000 });
        assert_eq!(square.size_weight, 0);
    }
}

#[test]
fn treemap_needs_room_inside_its_padding() {
    let root = sample_root();
    assert!(generate_treemap_layout(&root, canvas(10, 600)).is_empty());
    assert!(generate_treemap_layout(&root, canvas(800, 10)).is_empty());
    assert!(generate_treemap_layout(&root, canvas(0, 0)).is_empty());
    assert_eq!(generate_treemap_layout(&root, canvas(11, 11)).len(), 5);
}

fn many_files(big: usize, small: usize) -> DirectoryEntry {
    let mut children = Vec::new();
    for i in 0..big {
        children.push(file(&format!("big{}", i), Some(1_000_000)));
    }
    for i in 0..small {
        children.push(file(&format!("small{}", i), Some(100)));
    }
    dir("root", children)
}

#[test]
fn detailed_layout_groups_small_files_at_low_zoom() {
    let root = many_files(5, 20);
    let squares = generate_detailed_layout(&root, canvas(800, 600), 1500);
    assert_eq!(squares.len(), 5 + 1);
    let mut expected: Vec<SquareSource> = (0..5).map(SquareSource::Child).collect();
    expected.push(SquareSource::Others);
    assert_eq!(sources(&squares), expected);
    assert_eq!(grouped_files(&root, 1500), (5..25).collect::<Vec<usize>>());
}

#[test]
fn detailed_layout_draws_every_file_from_zoom_two() {
    let root = many_files(5, 20);
    let squares = generate_detailed_layout(&root, canvas(800, 600), 2000);
    assert_eq!(squares.len(), 25);
    assert!(grouped_files(&root, 2000).is_empty());
}

#[test]
fn detailed_layout_groups_only_above_twenty_files() {
    let root = many_files(5, 15);
    let squares = generate_detailed_layout(&root, canvas(800, 600), 1000);
    assert_eq!(squares.len(), 20);
    let root = many_files(5, 16);
    let squares = generate_detailed_layout(&root, canvas(800, 600), 1000);
    assert_eq!(squares.len(), 6);
}

#[test]
fn detailed_layout_keeps_files_at_the_threshold() {
    // 21 files of 1 byte and one of 79: the total is 100, and a share of
    // exactly one percent is not below the threshold.
    let mut children: Vec<DirectoryEntry> =
        (0..21).map(|i| file(&format!("f{}", i), Some(1))).collect();
    children.push(file("rest", Some(79)));
    let root = dir("root", children);
    let (singles, grouped) = classify_files(&root, 1000);
    assert_eq!(singles.len(), 22);
    assert!(grouped.is_empty());
    // One byte more in the total and the small ones fall below it.
    let mut children: Vec<DirectoryEntry> =
        (0..21).map(|i| file(&format!("f{}", i), Some(1))).collect();
    children.push(file("rest", Some(80)));
    let root = dir("root", children);
    let (singles, grouped) = classify_files(&root, 1000);
    assert_eq!(singles, vec![21]);
    assert_eq!(grouped.len(), 21);
}

#[test]
fn detailed_layout_splits_the_canvas_into_two_bands() {
    let root = dir(
        "root",
        vec![dir("a", vec![]), file("x", Some(10)), dir("b", vec![]), file("y", Some(10))],
    );
    let squares = generate_detailed_layout(&root, canvas(800, 600), 3000);
    assert_eq!(
        sources(&squares),
        vec![
            SquareSource::Child(0),
            SquareSource::Child(2),
            SquareSource::Child(1),
            SquareSource::Child(3),
        ]
    );
    // Directories: two columns, one row, over the upper 420 pixels, with 8
    // pixels of padding.
    assert_eq!(squares[0].rect, Rect { min_x: 8000, min_y: 8000, max_x: 392000, max_y: 412000 });
    assert_eq!(squares[1].rect, Rect { min_x: 408000, min_y: 8000, max_x: 792000, max_y: 412000 });
    // Files: two columns, one row, over the lower 180 pixels, with 5
    // pixels of padding.
    assert_eq!(squares[2].rect, Rect { min_x: 5000, min_y: 425000, max_x: 395000, max_y: 595000 });
    assert_eq!(squares[3].rect, Rect { min_x: 405000, min_y: 425000, max_x: 795000, max_y: 595000 });
    for square in &squares {
        assert_eq!(square.size_weight, 500);
    }
}

#[test]
fn detailed_layout_gives_files_the_whole_canvas_without_directories() {
    let root = dir("root", vec![file("x", Some(10))]);
    let squares = generate_detailed_layout(&root, canvas(800, 600), 3000);
    assert_eq!(squares.len(), 1);
    assert_eq!(squares[0].rect, Rect { min_x: 5000, min_y: 5000, max_x: 795000, max_y: 595000 });
    assert_eq!(squares[0].size_weight, 1000);
}

#[test]
fn layouts_of_nothing_are_empty() {
    let empty = dir("root", vec![]);
    let leaf = file("file", Some(10));
    let c = canvas(800, 600);
    for root in [&empty, &leaf] {
        assert!(generate_grid_layout(root, c, 2500).is_empty());
        assert!(generate_treemap_layout(root, c).is_empty());
        assert!(generate_detailed_layout(root, c, 2500).is_empty());
        assert!(generate_force_directed_layout(root, c).is_empty());
        for mode in [
            None,
            Some(LayoutType::Grid),
            Some(LayoutType::Treemap),
            Some(LayoutType::ForceDirected),
            Some(LayoutType::Detailed),
        ] {
            assert!(compute_layout(root, 1000, mode, c).is_empty());
        }
    }
}

#[test]
fn layouts_on_a_canvas_without_area_are_empty() {
    let root = sample_root();
    for c in [canvas(0, 600), canvas(800, 0)].iter() {
        assert!(generate_grid_layout(&root, *c, 2500).is_empty());
        assert!(generate_treemap_layout(&root, *c).is_empty());
        assert!(generate_detailed_layout(&root, *c, 2500).is_empty());
        assert!(generate_force_directed_layout(&root, *c).is_empty());
    }
}

#[test]
fn layout_follows_the_zoom_where_no_mode_is_set() {
    assert_eq!(layout_for_zoom(1000), LayoutType::Grid);
    assert_eq!(layout_for_zoom(1999), LayoutType::Grid);
    assert_eq!(layout_for_zoom(2000), LayoutType::Treemap);
    assert_eq!(layout_for_zoom(2999), LayoutType::Treemap);
    assert_eq!(layout_for_zoom(3000), LayoutType::Detailed);
    assert_eq!(layout_for_zoom(4000), LayoutType::Detailed);
    let root = sample_root();
    let c = canvas(800, 600);
    assert_eq!(compute_layout(&root, 1500, None, c), generate_grid_layout(&root, c, 1500));
    assert_eq!(compute_layout(&root, 2500, None, c), generate_treemap_layout(&root, c));
    assert_eq!(compute_layout(&root, 3500, None, c), generate_detailed_layout(&root, c, 3500));
}

#[test]
fn an_explicit_mode_overrides_the_zoom() {
    let root = sample_root();
    let c = canvas(800, 600);
    assert_eq!(
        compute_layout(&root, 1500, Some(LayoutType::Detailed), c),
        generate_detailed_layout(&root, c, 1500)
    );
    assert_eq!(
        compute_layout(&root, 3500, Some(LayoutType::Grid), c),
        generate_grid_layout(&root, c, 3500)
    );
    assert_eq!(
        compute_layout(&root, 1000, Some(LayoutType::ForceDirected), c),
        generate_force_directed_layout(&root, c)
    );
}

#[test]
fn layouts_are_deterministic() {
    let root = sample_root();
    let c = canvas(800, 600);
    for mode in [
        LayoutType::Grid,
        LayoutType::Treemap,
        LayoutType::ForceDirected,
        LayoutType::Detailed,
    ] {
        let first = compute_layout(&root, 2200, Some(mode), c);
        let second = compute_layout(&root, 2200, Some(mode), c);
        assert_eq!(first, second);
    }
}

#[test]
fn grid_treemap_and_detailed_have_one_square_for_each_child() {
    let root = sample_root();
    let c = canvas(800, 600);
    for mode in [LayoutType::Grid, LayoutType::Treemap, LayoutType::Detailed] {
        let squares = compute_layout(&root, 2500, Some(mode), c);
        let mut seen = sources(&squares);
        seen.sort_by_key(|s| match s {
            SquareSource::Child(i) => *i,
            SquareSource::Others => usize::MAX,
        });
        let expected: Vec<SquareSource> = (0..5).map(SquareSource::Child).collect();
        assert_eq!(seen, expected, "{:?}", mode);
    }
}

#[test]
fn node_sizes_grow_with_the_square_root() {
    assert_eq!(node_size(&dir("d", vec![])), 30000);
    let four: Vec<DirectoryEntry> = (0..4).map(|i| file(&format!("f{}", i), None)).collect();
    assert_eq!(node_size(&dir("d", four)), 40000);
    let two: Vec<DirectoryEntry> = (0..2).map(|i| file(&format!("f{}", i), None)).collect();
    // sqrt(2) = 1.414
    assert_eq!(node_size(&dir("d", two)), 30000 + 5 * 1414);
    let hundred: Vec<DirectoryEntry> = (0..100).map(|i| file(&format!("f{}", i), None)).collect();
    assert_eq!(node_size(&dir("d", hundred)), 80000);
    let many: Vec<DirectoryEntry> = (0..150).map(|i| file(&format!("f{}", i), None)).collect();
    assert_eq!(node_size(&dir("d", many)), 80000);
    assert_eq!(node_size(&file("f", None)), 20000);
    assert_eq!(node_size(&file("f", Some(1023))), 20000);
    assert_eq!(node_size(&file("f", Some(4 * 1024))), 24000);
    assert_eq!(node_size(&file("f", Some(224 * 1024))), 20000 + 2 * 14966);
    assert_eq!(node_size(&file("f", Some(225 * 1024))), 50000);
    assert_eq!(node_size(&file("f", Some(u64::MAX))), 50000);
}

#[test]
fn sine_and_cosine_are_exact_at_quarter_turns() {
    for n in [1u64, 2, 3, 5, 8, 1000] {
        assert_eq!(sine_of_turn(0, n), 0);
        assert_eq!(sine_of_turn(n, n), 1000);
        assert_eq!(sine_of_turn(2 * n, n), 0);
        assert_eq!(sine_of_turn(3 * n, n), -1000);
        assert_eq!(sine_of_turn(4 * n, n), 0);
        assert_eq!(cosine_of_turn(0, n), 1000);
        assert_eq!(cosine_of_turn(n, n), 0);
        assert_eq!(cosine_of_turn(2 * n, n), -1000);
        assert_eq!(cosine_of_turn(3 * n, n), 0);
    }
}

#[test]
fn sine_and_cosine_are_close_to_the_real_ones() {
    let n = 360u64;
    for q in 0..(4 * n) {
        let angle = 2.0 * std::f64::consts::PI * (q as f64) / (4.0 * n as f64);
        let sine = sine_of_turn(q, n) as f64 / 1000.0;
        let cosine = cosine_of_turn(q, n) as f64 / 1000.0;
        assert!((sine - angle.sin()).abs() < 0.003, "sine at {}", q);
        assert!((cosine - angle.cos()).abs() < 0.003, "cosine at {}", q);
    }
}

#[test]
fn circle_starts_at_four_fifths_of_half_the_shorter_side() {
    let c = canvas(800, 600);
    // The radius is 240 pixels around (400, 300).
    assert_eq!(circle_start(0, 4, c).x, 640000);
    assert_eq!(circle_start(0, 4, c).y, 300000);
    assert_eq!(circle_start(1, 4, c).x, 400000);
    assert_eq!(circle_start(1, 4, c).y, 540000);
    assert_eq!(circle_start(2, 4, c).x, 160000);
    assert_eq!(circle_start(2, 4, c).y, 300000);
    assert_eq!(circle_start(3, 4, c).x, 400000);
    assert_eq!(circle_start(3, 4, c).y, 60000);
    for i in 0..7usize {
        let p = circle_start(i, 7, c);
        let angle = 2.0 * std::f64::consts::PI * (i as f64) / 7.0;
        assert!((p.x as f64 - (400000.0 + 240000.0 * angle.cos())).abs() < 700.0);
        assert!((p.y as f64 - (300000.0 + 240000.0 * angle.sin())).abs() < 700.0);
    }
}

fn center(square: &VisualSquare) -> (f64, f64) {
    (
        (square.rect.min_x + square.rect.max_x) as f64 / 2.0,
        (square.rect.min_y + square.rect.max_y) as f64 / 2.0,
    )
}

fn smallest_distance(points: &[(f64, f64)]) -> f64 {
    let mut smallest = f64::MAX;
    for i in 0..points.len() {
        for j in (i + 1)..points.len() {
            let dx = points[i].0 - points[j].0;
            let dy = points[i].1 - points[j].1;
            smallest = smallest.min((dx * dx + dy * dy).sqrt());
        }
    }
    smallest
}

#[test]
fn force_layout_never_brings_five_equal_nodes_closer() {
    let children: Vec<DirectoryEntry> = (0..5).map(|i| file(&format!("f{}", i), None)).collect();
    let root = dir("root", children);
    let c = canvas(800, 600);
    let start: Vec<(f64, f64)> = (0..5)
        .map(|i| {
            let p = circle_start(i, 5, c);
            (p.x as f64, p.y as f64)
        })
        .collect();
    let squares = generate_force_directed_layout(&root, c);
    assert_eq!(squares.len(), 5);
    let end: Vec<(f64, f64)> = squares.iter().map(center).collect();
    assert!(smallest_distance(&end) >= smallest_distance(&start));
    for i in 0..5 {
        for j in (i + 1)..5 {
            let before = ((start[i].0 - start[j].0).powi(2) + (start[i].1 - start[j].1).powi(2)).sqrt();
            let after = ((end[i].0 - end[j].0).powi(2) + (end[i].1 - end[j].1).powi(2)).sqrt();
            assert!(after >= before - 1.0, "nodes {} and {}", i, j);
        }
    }
}

#[test]
fn force_layout_never_brings_two_nodes_closer_along_an_axis() {
    for c in [canvas(800, 600), canvas(600, 800), canvas(400, 400), canvas(3000, 500)].iter() {
        let root = dir("root", vec![file("a", Some(10)), dir("d", vec![file("x", None)])]);
        let start = [circle_start(0, 2, *c), circle_start(1, 2, *c)];
        let squares = generate_force_directed_layout(&root, *c);
        assert_eq!(squares.len(), 2);
        let end_x: Vec<i64> = squares.iter().map(|s| (s.rect.min_x + s.rect.max_x) / 2).collect();
        let end_y: Vec<i64> = squares.iter().map(|s| (s.rect.min_y + s.rect.max_y) / 2).collect();
        assert!((end_x[0] - end_x[1]).abs() >= (start[0].x - start[1].x).abs());
        assert!((end_y[0] - end_y[1]).abs() >= (start[0].y - start[1].y).abs());
        assert!((end_x[0] - end_x[1]).abs() > (start[0].x - start[1].x).abs());
    }
}

#[test]
fn force_layout_keeps_every_square_on_the_canvas() {
    let root = sample_root();
    for c in [canvas(800, 600), canvas(80, 80), canvas(40, 40), canvas(3000, 100)].iter() {
        let squares = generate_force_directed_layout(&root, *c);
        assert_eq!(
            sources(&squares),
            (0..5).map(SquareSource::Child).collect::<Vec<SquareSource>>()
        );
        for (i, square) in squares.iter().enumerate() {
            let size = node_size(&root.children[i]);
            assert_eq!(square.rect.max_x - square.rect.min_x, size);
            assert_eq!(square.rect.max_y - square.rect.min_y, size);
            assert!(square.rect.min_x >= 0 && square.rect.max_x <= c.width as i64 * 1000);
            assert!(square.rect.min_y >= 0 && square.rect.max_y <= c.height as i64 * 1000);
        }
    }
}

#[test]
fn force_layout_needs_room_for_the_largest_node() {
    let root = sample_root();
    // The largest node is the directory of two, 37.07 pixels wide.
    assert!(generate_force_directed_layout(&root, canvas(37, 600)).is_empty());
    assert!(generate_force_directed_layout(&root, canvas(800, 37)).is_empty());
    assert_eq!(generate_force_directed_layout(&root, canvas(38, 38)).len(), 5);
    // Two nodes of 20 pixels have room on 60 by 60.
    let two = dir("root", vec![file("a", None), file("b", None)]);
    let squares = generate_force_directed_layout(&two, canvas(60, 60));
    assert_eq!(squares.len(), 2);
    for square in &squares {
        assert!(square.rect.min_x >= 0 && square.rect.max_x <= 60_000);
        assert!(square.rect.min_y >= 0 && square.rect.max_y <= 60_000);
        assert_eq!(square.rect.max_x - square.rect.min_x, 20_000);
    }
    assert_eq!(generate_force_directed_layout(&two, canvas(20, 20)).len(), 2);
    assert!(generate_force_directed_layout(&two, canvas(19, 20)).is_empty());
}

#[test]
fn force_layout_weighs_directories_by_their_children() {
    let root = sample_root();
    let squares = generate_force_directed_layout(&root, canvas(800, 600));
    // Five children: a directory of two has weight 2/5, a file 1/5.
    assert_eq!(squares[0].size_weight, 400);
    assert_eq!(squares[1].size_weight, 200);
    assert_eq!(squares[2].size_weight, 0);
}

#[test]
fn a_single_node_rests_in_the_middle_of_its_circle() {
    let root = dir("root", vec![file("only", None)]);
    let squares = generate_force_directed_layout(&root, canvas(800, 600));
    assert_eq!(squares.len(), 1);
    // It starts at angle 0 on the circle and nothing pushes it.
    assert_eq!(
        squares[0].rect,
        Rect { min_x: 630000, min_y: 290000, max_x: 650000, max_y: 310000 }
    );
    assert_eq!(squares[0].size_weight, 1000);
}

#[test]
fn weights_that_do_not_fit_are_told_apart() {
    let root = sample_root();
    assert!(root.has_fitting_weights());
    let huge = dir("root", vec![file("a", Some(u64::MAX - 10)), file("b", Some(5))]);
    assert!(!huge.has_fitting_weights());
    let nearly = dir("root", vec![file("a", Some(u64::MAX - 2000)), file("b", Some(5))]);
    assert!(nearly.has_fitting_weights());
}

#[test]
fn a_layout_is_refused_where_the_weights_do_not_fit() {
    let huge = dir("root", vec![file("a", Some(u64::MAX - 10)), file("b", Some(5))]);
    assert_eq!(try_compute_layout(&huge, 1000, None, canvas(800, 600)), None);
    let root = sample_root();
    assert_eq!(
        try_compute_layout(&root, 2500, None, canvas(800, 600)),
        Some(compute_layout(&root, 2500, None, canvas(800, 600)))
    );
}

#[test]
fn grid_gives_small_files_squares_of_the_same_size() {
    let root = dir("root", vec![file("a", Some(500)), file("b", Some(1000))]);
    let squares = generate_grid_layout(&root, canvas(600, 600), 2000);
    assert_eq!(squares.len(), 2);
    let width = |s: &VisualSquare| s.rect.max_x - s.rect.min_x;
    let height = |s: &VisualSquare| s.rect.max_y - s.rect.min_y;
    assert_eq!(width(&squares[0]), width(&squares[1]));
    assert_eq!(height(&squares[0]), height(&squares[1]));
    assert_eq!(squares[0].size_weight, squares[1].size_weight);
    assert_eq!(squares[0].size_weight, 499);
}

#[test]
fn force_layout_weights_are_shares() {
    // A directory of three beside one file: three over two is capped at 1.
    let root = dir(
        "root",
        vec![dir("d", vec![file("x", None), file("y", None), file("z", None)]), file("f", None)],
    );
    let squares = generate_force_directed_layout(&root, canvas(800, 600));
    assert_eq!(squares[0].size_weight, 1000);
    assert_eq!(squares[1].size_weight, 500);
    let root = dir("root", vec![dir("d", vec![file("x", None)]), file("f", None), file("g", None)]);
    let squares = generate_force_directed_layout(&root, canvas(800, 600));
    assert_eq!(squares[0].size_weight, 333);
    assert_eq!(squares[1].size_weight, 333);
}

#[test]
fn the_bucket_stands_for_a_directory_of_the_gathered_files() {
    let root = many_files(5, 20);
    let entry = others_entry(&root, 1500);
    assert!(entry.is_directory);
    assert_eq!(entry.name, "Others");
    assert_eq!(entry.path, "/repo/root/Others");
    assert_eq!(entry.size_bytes, None);
    assert_eq!(entry.children.len(), 20);
    for (k, child) in entry.children.iter().enumerate() {
        assert_eq!(child.name, format!("small{}", k));
        assert_eq!(child.path, root.children[5 + k].path);
        assert_eq!(child.size_bytes, Some(100));
    }
    // Where nothing is gathered the bucket is empty.
    assert!(others_entry(&root, 2000).children.is_empty());
    let mut slashed = many_files(5, 20);
    slashed.path = "/repo/".to_string();
    assert_eq!(others_entry(&slashed, 1500).path, "/repo/Others");
    slashed.path = String::new();
    assert_eq!(others_entry(&slashed, 1500).path, "Others");
    slashed.path = "/".to_string();
    assert_eq!(others_entry(&slashed, 1500).path, "/Others");
    for path in ["/repo/root", "/repo/", "", "/", "relative"] {
        slashed.path = path.to_string();
        assert_eq!(
            others_entry(&slashed, 1500).path,
            std::path::Path::new(path).join("Others").to_string_lossy()
        );
    }
}

#[test]
fn strips_follow_the_order_that_is_given() {
    let squares = generate_squarified_treemap(&vec![2, 0, 1], &vec![10, 30, 60], 100, canvas(210, 110));
    assert_eq!(
        sources(&squares),
        vec![SquareSource::Child(2), SquareSource::Child(0), SquareSource::Child(1)]
    );
    let edges: Vec<(i64, i64)> = squares.iter().map(|s| (s.rect.min_x, s.rect.max_x)).collect();
    assert_eq!(edges, vec![(5000, 125000), (125000, 145000), (145000, 205000)]);
    for square in squares.iter() {
        assert_eq!((square.rect.min_y, square.rect.max_y), (5000, 105000));
    }
    let shares: Vec<u64> = squares.iter().map(|s| s.size_weight).collect();
    assert_eq!(shares, vec![600, 100, 300]);
}

#[test]
fn strips_of_a_high_canvas_lie_one_below_the_other() {
    let squares = generate_squarified_treemap(&vec![0, 1], &vec![1, 3], 4, canvas(110, 410));
    let edges: Vec<(i64, i64)> = squares.iter().map(|s| (s.rect.min_y, s.rect.max_y)).collect();
    assert_eq!(edges, vec![(5000, 105000), (105000, 405000)]);
    for square in squares.iter() {
        assert_eq!((square.rect.min_x, square.rect.max_x), (5000, 105000));
    }
}

#[test]
fn strips_that_weigh_less_than_the_total_leave_the_rest_free() {
    let squares = generate_squarified_treemap(&vec![1], &vec![7, 50], 200, canvas(410, 110));
    assert_eq!(squares.len(), 1);
    assert_eq!(squares[0].source, SquareSource::Child(1));
    assert_eq!((squares[0].rect.min_x, squares[0].rect.max_x), (5000, 105000));
    assert_eq!(squares[0].size_weight, 250);
    assert!(generate_squarified_treemap(&Vec::new(), &vec![7, 50], 200, canvas(410, 110)).is_empty());
}

#[test]
fn strips_fit_where_the_named_children_weigh_no_more_than_the_total() {
    assert!(has_fitting_strips(&vec![2, 0, 1], &vec![10, 30, 60], 100));
    assert!(has_fitting_strips(&vec![1], &vec![7, 50], 200));
    assert!(has_fitting_strips(&Vec::new(), &Vec::new(), 1));
    assert!(has_fitting_strips(&vec![0, 0], &vec![5], 10));
    assert!(!has_fitting_strips(&vec![2, 0, 1], &vec![10, 30, 60], 99));
    assert!(!has_fitting_strips(&vec![0, 0, 0], &vec![5], 10));
    assert!(!has_fitting_strips(&vec![3], &vec![10, 30, 60], 100));
    assert!(!has_fitting_strips(&Vec::new(), &Vec::new(), 0));
    assert!(!has_fitting_strips(&vec![0, 1], &vec![u64::MAX, 1], u64::MAX));
}
