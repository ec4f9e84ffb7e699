use git_scroll::palette::{Color, FileColors};
use git_scroll::text::text_after_last;

#[test]
fn test_file_colors() {
    let colors = FileColors::new();

    // Test known file types
    let rust_color = colors.get_file_color("main.rs");
    let js_color = colors.get_file_color("script.js");

    // These should be different colors
    assert_ne!(rust_color, js_color);

    // Test unknown file type
    let unknown_color = colors.get_file_color("file.xyz");
    assert_eq!(unknown_color, Color::rgb(180, 180, 180));
}

#[test]
fn every_known_kind_has_its_colour() {
    let colors = FileColors::new();
    assert_eq!(colors.table.len(), 32);
    assert_eq!(colors.get_file_color("main.rs"), Color { r: 250, g: 100, b: 100, a: 255 });
    assert_eq!(colors.get_file_color("a.b.py"), Color::rgb(100, 200, 150));
    assert_eq!(colors.get_file_color("x.yaml"), colors.get_file_color("x.yml"));
    assert_eq!(colors.get_file_color("Cargo.lock"), Color::rgb(180, 180, 180));
    assert_eq!(colors.get_file_color(".gitignore"), Color::rgb(150, 150, 150));
    // A name without a dot counts as its own extension.
    assert_eq!(colors.get_file_color("h"), Color::rgb(140, 180, 220));
    assert_eq!(colors.get_file_color("lock"), Color::rgb(180, 180, 180));
    // Extensions are told apart by case.
    assert_eq!(colors.get_file_color("MAIN.RS"), Color::rgb(180, 180, 180));
    assert_eq!(colors.get_file_color(""), Color::rgb(180, 180, 180));
    assert_eq!(colors.get_file_color("trailing."), Color::rgb(180, 180, 180));
    for entry in &colors.table {
        assert_eq!(colors.get_file_color(&format!("file.{}", entry.extension)), entry.color);
        assert_eq!(colors.color_of(&entry.extension), entry.color);
    }
}

#[test]
fn colours_can_be_added() {
    let mut colors = FileColors::new();
    colors.add("xyz", Color::rgb(1, 2, 3));
    assert_eq!(colors.get_file_color("file.xyz"), Color::rgb(1, 2, 3));
    // The first colour of an extension wins.
    colors.add("rs", Color::rgb(9, 9, 9));
    assert_eq!(colors.get_file_color("main.rs"), Color::rgb(250, 100, 100));
}

#[test]
fn what_follows_the_last_dot() {
    assert_eq!(text_after_last("main.rs", '.'), "rs");
    assert_eq!(text_after_last("a.b.c", '.'), "c");
    assert_eq!(text_after_last("none", '.'), "none");
    assert_eq!(text_after_last("end.", '.'), "");
    assert_eq!(text_after_last(".start", '.'), "start");
    assert_eq!(text_after_last("", '.'), "");
    assert_eq!(text_after_last("a/b/c", '/'), "c");
    for name in ["main.rs", "a.b.c", "none", "end.", ".start", "", "日本.語"] {
        assert_eq!(text_after_last(name, '.'), name.split('.').last().unwrap());
    }
}
