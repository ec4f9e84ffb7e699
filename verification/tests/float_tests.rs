use git_scroll::animation::ease_in_out_quad;
use git_scroll::directory::DirectoryEntry;
use git_scroll::geometry::{Rect, Size};
use git_scroll::layout::detailed::generate_detailed_layout;
use git_scroll::layout::grid::generate_grid_layout;
use git_scroll::layout::treemap::generate_treemap_layout;
use git_scroll::layout::{SquareSource, VisualSquare};

fn file(name: &str, size: Option<u64>) -> DirectoryEntry {
    DirectoryEntry {
        name: name.to_string(),
        path: format!("/repo/{}", name),
        is_directory: false,
        size_bytes: size,
        children: Vec::new(),
    }
}

fn dir(name: &str, children: Vec<DirectoryEntry>) -> DirectoryEntry {
    DirectoryEntry {
        name: name.to_string(),
        path: format!("/repo/{}", name),
        is_directory: true,
        size_bytes: None,
        children,
    }
}

fn mixed_root() -> DirectoryEntry {
    let mut children = Vec::new();
    for i in 0..7u64 {
        let inner: Vec<DirectoryEntry> =
            (0..(i * 3 % 5)).map(|k| file(&format!("inner{}", k), Some(10))).collect();
        children.push(dir(&format!("dir{}", i), inner));
    }
    for i in 0..23u64 {
        children.push(file(&format!("file{}", i), Some(i * i * 137 + 1)));
    }
    children.push(file("unknown", None));
    dir("root", children)
}

fn close(rect: Rect, min_x: f32, min_y: f32, width: f32, height: f32) -> bool {
    let near = |units: i64, pixels: f32| (units as f32 / 1000.0 - pixels).abs() < 0.01;
    near(rect.min_x, min_x)
        && near(rect.min_y, min_y)
        && near(rect.max_x - rect.min_x, width)
        && near(rect.max_y - rect.min_y, height)
}

fn grid_with_floats(root: &DirectoryEntry, width: f32, height: f32, zoom: f32) -> Vec<(usize, [f32; 4])> {
    let entries: Vec<(usize, &DirectoryEntry)> = root
        .children
        .iter()
        .enumerate()
        .filter(|(_, child)| zoom >= 2.0 || child.is_directory)
        .collect();
    let entry_count = entries.len();
    if entry_count == 0 {
        return Vec::new();
    }
    let aspect_ratio = width / height;
    let cols = (entry_count as f32 * aspect_ratio).sqrt().ceil() as usize;
    let rows = (entry_count as f32 / cols as f32).ceil() as usize;
    let cell_width = width / cols as f32;
    let cell_height = height / rows as f32;
    let sizes: Vec<u64> = entries
        .iter()
        .map(|(_, entry)| {
            if entry.is_directory {
                match entry.size_bytes {
                    Some(size) if size > 0 => size,
                    _ => (entry.children.len() as u64 + 1) * 1000,
                }
            } else {
                entry.size_bytes.unwrap_or(1000).max(1000)
            }
        })
        .collect();
    let total_size: u64 = 1 + sizes.iter().sum::<u64>();
    let mut result = Vec::new();
    for (index, ((child, _), size)) in entries.iter().zip(sizes.iter()).enumerate() {
        let row = index / cols;
        let col = index % cols;
        let x = col as f32 * cell_width;
        let y = row as f32 * cell_height;
        let size_factor =
            0.5 + ((*size as f32) / (total_size as f32) * entry_count as f32).min(1.0);
        let padding = 10.0;
        let adjusted_width = (cell_width - 2.0 * padding) * size_factor;
        let adjusted_height = (cell_height - 2.0 * padding) * size_factor;
        let x_offset = (cell_width - adjusted_width) / 2.0;
        let y_offset = (cell_height - adjusted_height) / 2.0;
        result.push((*child, [x + x_offset, y + y_offset, adjusted_width, adjusted_height]));
    }
    result
}

fn compare(squares: &[VisualSquare], expected: &[(usize, [f32; 4])]) {
    assert_eq!(squares.len(), expected.len());
    for (square, (child, r)) in squares.iter().zip(expected.iter()) {
        assert_eq!(square.source, SquareSource::Child(*child));
        assert!(
            close(square.rect, r[0], r[1], r[2], r[3]),
            "child {}: {:?} against {:?}",
            child,
            square.rect,
            r
        );
    }
}

#[test]
fn the_grid_agrees_with_floating_point() {
    let root = mixed_root();
    for (width, height) in [(800u32, 600u32), (600, 800), (1024, 768), (333, 777)] {
        for zoom in [1000i64, 1800, 2000, 3700] {
            let squares = generate_grid_layout(&root, Size { width, height }, zoom);
            let expected =
                grid_with_floats(&root, width as f32, height as f32, zoom as f32 / 1000.0);
            compare(&squares, &expected);
        }
    }
}

fn treemap_with_floats(root: &DirectoryEntry, width: f32, height: f32) -> Vec<(usize, [f32; 4])> {
    let sizes: Vec<u64> = root
        .children
        .iter()
        .map(|child| {
            if child.is_directory {
                match child.size_bytes {
                    Some(size) if size > 0 => size,
                    _ => child.children.len() as u64 * 1000,
                }
            } else {
                child.size_bytes.unwrap_or(1000)
            }
        })
        .collect();
    let mut total_size: u64 = sizes.iter().sum();
    if total_size == 0 {
        total_size = 1;
    }
    let mut sorted: Vec<usize> = (0..root.children.len()).collect();
    sorted.sort_by(|a, b| sizes[*b].cmp(&sizes[*a]));
    let padding = 5.0;
    let available_width = width - 2.0 * padding;
    let available_height = height - 2.0 * padding;
    let is_horizontal = available_width >= available_height;
    let mut position = (padding, padding);
    let mut result = Vec::new();
    for child in sorted {
        let size_proportion = sizes[child] as f32 / total_size as f32;
        let item_area = available_width * available_height * size_proportion;
        let (item_width, item_height) = if is_horizontal {
            (item_area / available_height, available_height)
        } else {
            (available_width, item_area / available_width)
        };
        result.push((child, [position.0, position.1, item_width, item_height]));
        if is_horizontal {
            position.0 += item_width;
        } else {
            position.1 += item_height;
        }
    }
    result
}

#[test]
fn the_treemap_agrees_with_floating_point() {
    let root = mixed_root();
    for (width, height) in [(800u32, 600u32), (600, 800), (1024, 768), (333, 777)] {
        let squares = generate_treemap_layout(&root, Size { width, height });
        let expected = treemap_with_floats(&root, width as f32, height as f32);
        assert_eq!(squares.len(), expected.len());
        for (square, (child, r)) in squares.iter().zip(expected.iter()) {
            assert_eq!(square.source, SquareSource::Child(*child));
            // Strips are cut where the heavier ones end, so the rounding of
            // one strip does not add to that of the next.
            let near = |units: i64, pixels: f32| (units as f32 / 1000.0 - pixels).abs() < 0.05;
            assert!(near(square.rect.min_x, r[0]), "{:?} against {:?}", square.rect, r);
            assert!(near(square.rect.min_y, r[1]), "{:?} against {:?}", square.rect, r);
            assert!(near(square.rect.max_x, r[0] + r[2]), "{:?} against {:?}", square.rect, r);
            assert!(near(square.rect.max_y, r[1] + r[3]), "{:?} against {:?}", square.rect, r);
        }
    }
}

fn band_with_floats(
    count: usize,
    width: f32,
    band_height: f32,
    top: f32,
    padding: f32,
) -> Vec<[f32; 4]> {
    let cols = (count as f32).sqrt().ceil() as usize;
    let rows = (count + cols - 1) / cols;
    let cell_width = width / cols as f32;
    let cell_height = band_height / rows as f32;
    (0..count)
        .map(|index| {
            let row = index / cols;
            let col = index % cols;
            [
                col as f32 * cell_width + padding,
                top + row as f32 * cell_height + padding,
                cell_width - 2.0 * padding,
                cell_height - 2.0 * padding,
            ]
        })
        .collect()
}

#[test]
fn the_detailed_layout_agrees_with_floating_point() {
    let root = mixed_root();
    let directories = root.children.iter().filter(|c| c.is_directory).count();
    let files = root.children.len() - directories;
    for (width, height) in [(800u32, 600u32), (600, 800), (1024, 768)] {
        let squares = generate_detailed_layout(&root, Size { width, height }, 2500);
        assert_eq!(squares.len(), directories + files);
        let directory_height = height as f32 * 0.7;
        let mut expected = band_with_floats(directories, width as f32, directory_height, 0.0, 8.0);
        expected.extend(band_with_floats(
            files,
            width as f32,
            height as f32 - directory_height,
            directory_height,
            5.0,
        ));
        for (square, r) in squares.iter().zip(expected.iter()) {
            assert!(
                close(square.rect, r[0], r[1], r[2], r[3]),
                "{:?} against {:?}",
                square.rect,
                r
            );
        }
    }
}

#[test]
fn easing_agrees_with_floating_point() {
    for t in 0..=1000i64 {
        let x = t as f32 / 1000.0;
        let eased = if x < 0.5 { 2.0 * x * x } else { 1.0 - (-2.0 * x + 2.0).powi(2) / 2.0 };
        assert!((ease_in_out_quad(t) as f32 / 1000.0 - eased).abs() < 0.0011);
    }
}

fn force_with_floats(root: &DirectoryEntry, width: f32, height: f32) -> Vec<[f32; 3]> {
    let children = &root.children;
    let center_x = width / 2.0;
    let center_y = height / 2.0;
    let radius = (width.min(height) / 2.0) * 0.8;
    let child_count = children.len();
    let mut nodes: Vec<[f32; 3]> = Vec::new();
    for (i, child) in children.iter().enumerate() {
        let angle = 2.0 * std::f32::consts::PI * (i as f32) / (child_count as f32);
        let x = center_x + radius * angle.cos();
        let y = center_y + radius * angle.sin();
        let size = if child.is_directory {
            (30.0 + (child.children.len() as f32).sqrt() * 5.0).min(80.0)
        } else {
            match child.size_bytes {
                Some(bytes) => (20.0 + ((bytes / 1024) as f32).sqrt() * 2.0).min(50.0),
                None => 20.0,
            }
        };
        nodes.push([x, y, size]);
    }
    let k = (width * height / child_count as f32).sqrt() * 0.3;
    for _ in 0..50 {
        for i in 0..nodes.len() {
            let mut force_x = 0.0;
            let mut force_y = 0.0;
            for j in 0..nodes.len() {
                if i != j {
                    let dx = nodes[i][0] - nodes[j][0];
                    let dy = nodes[i][1] - nodes[j][1];
                    let distance = (dx * dx + dy * dy).sqrt().max(0.1);
                    let force = k * k / distance;
                    force_x += dx / distance * force;
                    force_y += dy / distance * force;
                }
            }
            let damping = 0.1;
            let new_x = nodes[i][0] + force_x * damping;
            let new_y = nodes[i][1] + force_y * damping;
            let half = nodes[i][2] / 2.0;
            nodes[i][0] = new_x.clamp(half, width - half);
            nodes[i][1] = new_y.clamp(half, height - half);
        }
    }
    nodes
}

#[test]
fn the_force_layout_agrees_with_floating_point() {
    let mut children = Vec::new();
    for i in 0..4u64 {
        let inner: Vec<DirectoryEntry> =
            (0..(i * 7)).map(|k| file(&format!("inner{}", k), Some(10))).collect();
        children.push(dir(&format!("dir{}", i), inner));
    }
    for i in 0..5u64 {
        children.push(file(&format!("file{}", i), Some(i * 50_000)));
    }
    let root = dir("root", children);
    for (width, height) in [(800u32, 600u32), (600, 800), (2000, 1500)] {
        let squares = git_scroll::layout::force::generate_force_directed_layout(
            &root,
            Size { width, height },
        );
        let expected = force_with_floats(&root, width as f32, height as f32);
        assert_eq!(squares.len(), expected.len());
        for (square, node) in squares.iter().zip(expected.iter()) {
            let size = (square.rect.max_x - square.rect.min_x) as f32 / 1000.0;
            let x = (square.rect.min_x + square.rect.max_x) as f32 / 2000.0;
            let y = (square.rect.min_y + square.rect.max_y) as f32 / 2000.0;
            assert!((size - node[2]).abs() < 0.01, "{} against {}", size, node[2]);
            assert!(
                (x - node[0]).abs() < 2.0 && (y - node[1]).abs() < 2.0,
                "({}, {}) against ({}, {})",
                x,
                y,
                node[0],
                node[1]
            );
        }
    }
}
