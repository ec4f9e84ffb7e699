use git_scroll::cache::{copy_squares, LayoutCache};
use git_scroll::geometry::Rect;
use git_scroll::layout::{LayoutType, SquareSource, VisualSquare};

fn squares(n: usize) -> Vec<VisualSquare> {
    (0..n)
        .map(|i| {
            VisualSquare::fresh(
                SquareSource::Child(i),
                Rect::from_min_size(i as i64 * 10, 0, 10, 10),
                1,
            )
        })
        .collect()
}

#[test]
fn a_new_cache_is_empty() {
    let cache = LayoutCache::new();
    assert_eq!(cache.len(), 0);
    assert_eq!(cache.get(&"/repo".to_string(), 1000, LayoutType::Grid), None);
}

#[test]
fn what_is_cached_is_found_under_its_key_only() {
    let mut cache = LayoutCache::new();
    let path = "/repo".to_string();
    cache.insert(path.clone(), 1000, LayoutType::Grid, squares(2));
    assert_eq!(cache.get(&path, 1000, LayoutType::Grid), Some(squares(2)));
    assert_eq!(cache.get(&path, 1001, LayoutType::Grid), None);
    assert_eq!(cache.get(&path, 1000, LayoutType::Treemap), None);
    assert_eq!(cache.get(&"/other".to_string(), 1000, LayoutType::Grid), None);
    assert_eq!(cache.find(&path, 1000, LayoutType::Grid), Some(0));
}

#[test]
fn a_second_layout_under_the_same_key_takes_the_place_of_the_first() {
    let mut cache = LayoutCache::new();
    let path = "/repo".to_string();
    cache.insert(path.clone(), 1000, LayoutType::Grid, squares(2));
    cache.insert(path.clone(), 2000, LayoutType::Grid, squares(3));
    cache.insert(path.clone(), 1000, LayoutType::Grid, squares(5));
    assert_eq!(cache.len(), 2);
    assert_eq!(cache.get(&path, 1000, LayoutType::Grid), Some(squares(5)));
    assert_eq!(cache.get(&path, 2000, LayoutType::Grid), Some(squares(3)));
}

#[test]
fn remove_forgets_one_key_and_clear_all() {
    let mut cache = LayoutCache::new();
    let path = "/repo".to_string();
    cache.insert(path.clone(), 1000, LayoutType::Grid, squares(1));
    cache.insert(path.clone(), 1000, LayoutType::Treemap, squares(2));
    cache.insert(path.clone(), 1000, LayoutType::Detailed, squares(3));
    cache.remove(&path, 1000, LayoutType::Treemap);
    assert_eq!(cache.len(), 2);
    assert_eq!(cache.get(&path, 1000, LayoutType::Treemap), None);
    assert_eq!(cache.get(&path, 1000, LayoutType::Grid), Some(squares(1)));
    assert_eq!(cache.get(&path, 1000, LayoutType::Detailed), Some(squares(3)));
    cache.remove(&path, 1000, LayoutType::Treemap);
    assert_eq!(cache.len(), 2);
    cache.clear();
    assert_eq!(cache.len(), 0);
    assert_eq!(cache.get(&path, 1000, LayoutType::Grid), None);
}

#[test]
fn copies_are_equal_to_their_originals() {
    assert_eq!(copy_squares(&squares(4)), squares(4));
    assert!(copy_squares(&Vec::new()).is_empty());
}
