use git_scroll::paths::{extension, file_name};
use std::path::Path;

fn std_file_name(path: &str) -> Option<String> {
    Path::new(path).file_name().and_then(|name| name.to_str()).map(|name| name.to_string())
}

fn std_extension(path: &str) -> Option<String> {
    Path::new(path).extension().and_then(|name| name.to_str()).map(|name| name.to_string())
}

fn all_texts(alphabet: &[char], length: usize) -> Vec<String> {
    let mut texts = vec![String::new()];
    let mut last = vec![String::new()];
    for _ in 0..length {
        let mut next = Vec::new();
        for text in &last {
            for c in alphabet {
                let mut longer = text.clone();
                longer.push(*c);
                next.push(longer);
            }
        }
        texts.extend(next.iter().cloned());
        last = next;
    }
    texts
}

#[test]
fn file_names_are_last_components() {
    assert_eq!(file_name("/path/to/.git"), Some(".git".to_string()));
    assert_eq!(file_name(".git"), Some(".git".to_string()));
    assert_eq!(file_name("/usr/bin/"), Some("bin".to_string()));
    assert_eq!(file_name("tmp/foo.txt"), Some("foo.txt".to_string()));
    assert_eq!(file_name("foo.txt/."), Some("foo.txt".to_string()));
    assert_eq!(file_name("foo.txt/.//"), Some("foo.txt".to_string()));
    assert_eq!(file_name("foo.txt/.."), None);
    assert_eq!(file_name("/"), None);
    assert_eq!(file_name(""), None);
    assert_eq!(file_name("."), None);
    assert_eq!(file_name(".."), None);
    assert_eq!(file_name("..."), Some("...".to_string()));
    assert_eq!(file_name("a/日本語.txt"), Some("日本語.txt".to_string()));
}

#[test]
fn extensions_follow_the_last_dot() {
    assert_eq!(extension("foo.rs"), Some("rs".to_string()));
    assert_eq!(extension("/repo/a.tar.gz"), Some("gz".to_string()));
    assert_eq!(extension("/repo/Makefile"), None);
    assert_eq!(extension("/repo/.gitignore"), None);
    assert_eq!(extension("/repo/.config.toml"), Some("toml".to_string()));
    assert_eq!(extension("/repo/trailing."), Some("".to_string()));
    assert_eq!(extension("/repo.d/file"), None);
    assert_eq!(extension("/repo.d/"), Some("d".to_string()));
    assert_eq!(extension(".."), None);
    assert_eq!(extension("..."), Some("".to_string()));
    assert_eq!(extension(""), None);
    assert_eq!(extension("a/日本語.テキスト"), Some("テキスト".to_string()));
}

#[test]
fn file_names_agree_with_std() {
    for path in all_texts(&['a', '.', '/'], 8) {
        assert_eq!(file_name(&path), std_file_name(&path), "{:?}", path);
    }
    for path in all_texts(&['x', 'é', '.', '/', ' '], 5) {
        assert_eq!(file_name(&path), std_file_name(&path), "{:?}", path);
    }
}

#[test]
fn extensions_agree_with_std() {
    for path in all_texts(&['a', '.', '/'], 8) {
        assert_eq!(extension(&path), std_extension(&path), "{:?}", path);
    }
    for path in all_texts(&['x', 'é', '.', '/', ' '], 5) {
        assert_eq!(extension(&path), std_extension(&path), "{:?}", path);
    }
}
