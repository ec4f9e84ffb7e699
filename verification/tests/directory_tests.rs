use git_scroll::directory::{entry_name, DirectoryEntry};
use git_scroll::directory::DirectoryParser;
use git_scroll::statistics::is_countable;

#[test]
fn test_should_ignore() {
    let parser = DirectoryParser::new();

    // Should ignore .git directory
    assert!(parser.should_ignore(".git"));
    assert!(parser.should_ignore("/path/to/.git"));

    // Should ignore node_modules directory
    assert!(parser.should_ignore("node_modules"));
    assert!(parser.should_ignore("/path/to/node_modules"));

    // Should not ignore regular directories
    assert!(!parser.should_ignore("src"));
    assert!(!parser.should_ignore("/path/to/src"));
}

#[test]
fn test_custom_ignore_patterns() {
    let parser = DirectoryParser::with_ignore_patterns(vec![
        "build".to_string(),
        "dist".to_string(),
    ]);

    // Should ignore custom patterns
    assert!(parser.should_ignore("build"));
    assert!(parser.should_ignore("dist"));

    // Should not ignore default patterns (they're not included)
    assert!(!parser.should_ignore(".git"));
    assert!(!parser.should_ignore("node_modules"));
}

#[test]
fn test_add_ignore_pattern() {
    let mut parser = DirectoryParser::new();

    // Initially should not ignore "temp"
    assert!(!parser.should_ignore("temp"));

    // Add "temp" to ignore patterns
    parser.add_ignore_pattern("temp".to_string());

    // Now should ignore "temp"
    assert!(parser.should_ignore("temp"));
}

fn file(path: &str, size: Option<u64>) -> DirectoryEntry {
    DirectoryEntry {
        name: path.rsplit('/').next().unwrap().to_string(),
        path: path.to_string(),
        is_directory: false,
        size_bytes: size,
        children: Vec::new(),
    }
}

fn dir(path: &str, children: Vec<DirectoryEntry>) -> DirectoryEntry {
    DirectoryEntry {
        name: path.rsplit('/').next().unwrap().to_string(),
        path: path.to_string(),
        is_directory: true,
        size_bytes: None,
        children,
    }
}

fn repository() -> DirectoryEntry {
    dir(
        "/repo",
        vec![
            dir("/repo/.git", vec![file("/repo/.git/HEAD", Some(23))]),
            dir(
                "/repo/src",
                vec![
                    file("/repo/src/main.rs", Some(1200)),
                    file("/repo/src/lib.rs", Some(800)),
                    dir(
                        "/repo/src/node_modules",
                        vec![file("/repo/src/node_modules/index.js", Some(5))],
                    ),
                    dir("/repo/src/deep", vec![file("/repo/src/deep/notes.TXT", None)]),
                ],
            ),
            file("/repo/README.md", Some(300)),
            file("/repo/.DS_Store", Some(6148)),
            file("/repo/Makefile", Some(90)),
            file("/repo/my_target_list.rs", Some(1)),
        ],
    )
}

#[test]
fn default_patterns_are_the_usual_clutter() {
    let parser = DirectoryParser::new();
    assert_eq!(parser.ignore_patterns, vec![".git", "node_modules", "target", ".DS_Store"]);
}

#[test]
fn a_pattern_anywhere_in_the_file_name_is_enough() {
    let parser = DirectoryParser::new();
    assert!(parser.should_ignore("/repo/.gitignore"));
    assert!(parser.should_ignore("my_target_list.rs"));
    assert!(parser.name_matches("retarget"));
    assert!(!parser.name_matches("targe"));
    assert!(!parser.name_matches(""));
    // Only the file name counts, not the directories above it.
    assert!(!parser.should_ignore("/repo/target/debug/app"));
    assert!(!parser.should_ignore("/repo/.git/HEAD"));
    // A path without a file name is never left out.
    assert!(!parser.should_ignore("/"));
    assert!(!parser.should_ignore(""));
    assert!(!parser.should_ignore("/repo/target/.."));
}

#[test]
fn without_patterns_nothing_is_left_out() {
    let parser = DirectoryParser::with_ignore_patterns(Vec::new());
    assert!(!parser.should_ignore(".git"));
    assert!(!parser.name_matches("anything"));
    // The empty pattern is in every name.
    let parser = DirectoryParser::with_ignore_patterns(vec![String::new()]);
    assert!(parser.name_matches("anything"));
    assert!(parser.name_matches(""));
}

#[test]
fn get_all_files_lists_the_files_that_are_not_left_out() {
    let parser = DirectoryParser::new();
    // Files are tested one by one; a file below a directory that would be
    // left out is listed if its own name is fine.
    assert_eq!(
        parser.get_all_files(&repository()),
        vec![
            "/repo/.git/HEAD",
            "/repo/src/main.rs",
            "/repo/src/lib.rs",
            "/repo/src/node_modules/index.js",
            "/repo/src/deep/notes.TXT",
            "/repo/README.md",
            "/repo/Makefile",
        ]
    );
    assert_eq!(parser.get_all_files(&file("/repo/a.txt", None)), vec!["/repo/a.txt"]);
    assert!(parser.get_all_files(&file("/repo/.git", None)).is_empty());
    assert!(parser.get_all_files(&dir("/repo/empty", vec![])).is_empty());
}

#[test]
fn collect_files_appends_to_what_is_there() {
    let parser = DirectoryParser::new();
    let mut files = vec!["first".to_string()];
    parser.collect_files_recursive(&repository().children[1], &mut files);
    assert_eq!(
        files,
        vec![
            "first",
            "/repo/src/main.rs",
            "/repo/src/lib.rs",
            "/repo/src/node_modules/index.js",
            "/repo/src/deep/notes.TXT",
        ]
    );
}

fn paths(entry: &DirectoryEntry, into: &mut Vec<String>) {
    into.push(entry.path.clone());
    for child in &entry.children {
        paths(child, into);
    }
}

#[test]
fn parse_directory_prunes_what_is_left_out() {
    let parser = DirectoryParser::new();
    let tree = parser.parse_directory(&repository()).unwrap();
    let mut seen = Vec::new();
    paths(&tree, &mut seen);
    assert_eq!(
        seen,
        vec![
            "/repo",
            "/repo/src",
            "/repo/src/main.rs",
            "/repo/src/lib.rs",
            "/repo/src/deep",
            "/repo/src/deep/notes.TXT",
            "/repo/README.md",
            "/repo/Makefile",
        ]
    );
    assert_eq!(tree.name, "repo");
    assert!(tree.is_directory);
    assert_eq!(tree.children[0].children[0].size_bytes, Some(1200));
    assert_eq!(tree.children[0].children[0].name, "main.rs");
    assert!(!tree.children[0].children[0].is_directory);
}

#[test]
fn parse_directory_keeps_the_root_whatever_its_name() {
    let parser = DirectoryParser::new();
    let root = dir("/work/target", vec![file("/work/target/app", Some(1))]);
    let tree = parser.parse_directory(&root).unwrap();
    assert_eq!(tree.path, "/work/target");
    assert_eq!(tree.children.len(), 1);
}

#[test]
fn parse_directory_refuses_a_file() {
    let parser = DirectoryParser::new();
    let error = parser.parse_directory(&file("/repo/a \"b\".txt", Some(1))).unwrap_err();
    assert_eq!(error, "Path is not a directory: \"/repo/a \\\"b\\\".txt\"");
    // The path is written as a path is: with single quotes escaped too.
    let error = parser.parse_directory(&file("/repo/it's", Some(1))).unwrap_err();
    assert_eq!(error, format!("Path is not a directory: {:?}", std::path::Path::new("/repo/it's")));
    let error = parser.parse_directory(&file("/tmp/plain.txt", None)).unwrap_err();
    assert_eq!(error, "Path is not a directory: \"/tmp/plain.txt\"");
}

#[test]
fn prune_drops_the_children_of_a_file() {
    let parser = DirectoryParser::new();
    let mut odd = file("/repo/odd", Some(1));
    odd.children.push(file("/repo/odd/inner", Some(1)));
    let pruned = parser.prune(&odd);
    assert!(pruned.children.is_empty());
    assert_eq!(pruned.path, "/repo/odd");
}

#[test]
fn clone_copies_the_whole_tree() {
    let tree = repository();
    let copy = tree.clone();
    let mut first = Vec::new();
    let mut second = Vec::new();
    paths(&tree, &mut first);
    paths(&copy, &mut second);
    assert_eq!(first, second);
    assert_eq!(copy.children[1].children[0].size_bytes, Some(1200));
    assert_eq!(copy.name, tree.name);
}

#[test]
fn statistics_count_files_directories_bytes_and_depth() {
    let parser = DirectoryParser::new();
    let tree = repository();
    assert!(is_countable(&tree));
    let stats = parser.get_statistics(&tree);
    assert_eq!(stats.total_files, 9);
    assert_eq!(stats.total_directories, 5);
    assert_eq!(stats.total_size_bytes, 23 + 1200 + 800 + 5 + 300 + 6148 + 90 + 1);
    assert_eq!(stats.max_depth, 3);
    let mut types: Vec<(String, usize)> =
        stats.file_types.iter().map(|t| (t.extension.clone(), t.count)).collect();
    types.sort();
    assert_eq!(
        types,
        vec![
            ("TXT".to_string(), 1),
            ("js".to_string(), 1),
            ("md".to_string(), 1),
            ("rs".to_string(), 3),
        ]
    );
}

#[test]
fn statistics_of_a_single_entry() {
    let parser = DirectoryParser::new();
    let stats = parser.get_statistics(&file("/repo/a.tar.gz", Some(7)));
    assert_eq!((stats.total_files, stats.total_directories), (1, 0));
    assert_eq!(stats.total_size_bytes, 7);
    assert_eq!(stats.max_depth, 0);
    assert_eq!(stats.file_types.len(), 1);
    assert_eq!(stats.file_types[0].extension, "gz");
    assert_eq!(stats.file_types[0].count, 1);
    let stats = parser.get_statistics(&dir("/repo/empty.d", vec![]));
    assert_eq!((stats.total_files, stats.total_directories), (0, 1));
    assert_eq!(stats.total_size_bytes, 0);
    assert!(stats.file_types.is_empty());
}

#[test]
fn trees_with_too_many_bytes_are_not_countable() {
    let tree = dir(
        "/repo",
        vec![file("/repo/a", Some(u64::MAX)), file("/repo/b", Some(1))],
    );
    assert!(!is_countable(&tree));
    let tree = dir(
        "/repo",
        vec![file("/repo/a", Some(u64::MAX - 1)), file("/repo/b", Some(1))],
    );
    assert!(is_countable(&tree));
}

#[test]
fn statistics_are_refused_where_they_cannot_be_counted() {
    let parser = DirectoryParser::new();
    let tree = dir(
        "/repo",
        vec![file("/repo/a", Some(u64::MAX)), file("/repo/b", Some(1))],
    );
    assert!(parser.try_get_statistics(&tree).is_none());
    let stats = parser.try_get_statistics(&repository()).unwrap();
    assert_eq!(stats.total_files, 9);
}

#[test]
fn parsed_entries_are_named_after_their_paths() {
    let parser = DirectoryParser::new();
    let mut root = dir("/work/project", vec![file("/work/project/a.txt", Some(1))]);
    root.name = "something else".to_string();
    root.children[0].name = "not a.txt".to_string();
    let tree = parser.parse_directory(&root).unwrap();
    assert_eq!(tree.name, "project");
    assert_eq!(tree.children[0].name, "a.txt");
    // A root whose path has no file name is called root.
    for path in ["/", "", "..", "/work/.."] {
        let mut root = dir(path, vec![]);
        root.name = "x".to_string();
        assert_eq!(parser.parse_directory(&root).unwrap().name, "root", "{:?}", path);
    }
    // An entry below the root whose path has none is called unknown.
    let root = dir("/work", vec![file("/work/..", Some(1))]);
    let tree = parser.parse_directory(&root).unwrap();
    assert_eq!(tree.children[0].name, "unknown");
    assert_eq!(parser.prune(&dir("/", vec![])).name, "unknown");
    assert_eq!(entry_name("/a/b/", "root"), "b");
    assert_eq!(entry_name("", "root"), "root");
}
