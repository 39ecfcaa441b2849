use codebase_context::order::{precedes, text_precedes};
use codebase_context::path::DiscoveredPath;
use codebase_context::sorting::sort_paths;
use std::path::PathBuf;

fn paths_absolute(names: &[&str]) -> DiscoveredPath {
    DiscoveredPath {
        anchor: String::from("/"),
        names: names.iter().map(|s| s.to_string()).collect(),
    }
}

fn paths_relative(names: &[&str]) -> DiscoveredPath {
    DiscoveredPath { anchor: String::new(), names: names.iter().map(|s| s.to_string()).collect() }
}

fn paths_of_text(text: &str) -> DiscoveredPath {
    paths_absolute(&text.split('/').filter(|s| !s.is_empty()).collect::<Vec<_>>())
}

#[test]
fn file_name_is_the_last_name() {
    assert_eq!(paths_absolute(&["a", "b.rs"]).file_name(), "b.rs");
    assert_eq!(paths_relative(&["only"]).file_name(), "only");
    assert_eq!(paths_absolute(&[]).file_name(), "");
    assert_eq!(paths_relative(&["a", ".."]).file_name(), "");
    assert_eq!(paths_relative(&["."]).file_name(), "");
}

#[test]
fn path_under_its_root() {
    let root = paths_absolute(&["home", "me"]);
    assert!(paths_absolute(&["home", "me", "a"]).is_under(&root));
    assert!(paths_absolute(&["home", "me"]).is_under(&root));
    assert!(!paths_absolute(&["home"]).is_under(&root));
    assert!(!paths_absolute(&["home", "you", "a"]).is_under(&root));
    assert!(!paths_absolute(&["home", "mein"]).is_under(&root));
    assert!(!paths_relative(&["home", "me", "a"]).is_under(&root));
    assert!(paths_relative(&["x"]).is_under(&paths_relative(&[])));
}

#[test]
fn path_written_out() {
    assert_eq!(paths_absolute(&["a", "b", "c.txt"]).text(), "/a/b/c.txt");
    assert_eq!(paths_relative(&["a", "b"]).text(), "a/b");
    assert_eq!(paths_absolute(&[]).text(), "/");
    assert_eq!(paths_relative(&[]).text(), "");
}

#[test]
fn path_written_relative_to_the_root() {
    let root = paths_absolute(&["home", "me"]);
    assert_eq!(paths_absolute(&["home", "me", "src", "a.rs"]).relative_text(&root), "src/a.rs");
    assert_eq!(paths_absolute(&["home", "me"]).relative_text(&root), "");
    assert_eq!(paths_absolute(&["tmp", "x"]).relative_text(&root), "/tmp/x");
}

#[test]
fn names_of_a_path() {
    let path = paths_absolute(&["repo", ".git", "config"]);
    assert!(path.has_name(".git"));
    assert!(path.has_name("config"));
    assert!(!path.has_name("git"));
    assert!(!path.has_name(".gitignore"));
    assert!(!paths_absolute(&["repo", ".github", "x"]).has_name(".git"));
}

#[test]
fn same_paths() {
    assert!(paths_absolute(&["a", "b"]).same_as(&paths_absolute(&["a", "b"])));
    assert!(!paths_absolute(&["a", "b"]).same_as(&paths_relative(&["a", "b"])));
    assert!(!paths_absolute(&["a", "b"]).same_as(&paths_absolute(&["a"])));
    assert!(!paths_absolute(&["a", "b"]).same_as(&paths_absolute(&["a", "c"])));
}

#[test]
fn texts_are_ordered_by_bytes() {
    assert!(text_precedes("", ""));
    assert!(text_precedes("", "a"));
    assert!(!text_precedes("a", ""));
    assert!(text_precedes("a", "b"));
    assert!(!text_precedes("b", "a"));
    assert!(text_precedes("a", "ab"));
    assert!(text_precedes("Z", "a"));
    assert!(text_precedes("z", "é"));
    assert!(text_precedes("é", "日"));
}

#[test]
fn paths_are_ordered_name_by_name() {
    let a_b = paths_absolute(&["a", "b"]);
    let a_dash_b = paths_absolute(&["a-b"]);
    // As texts "a-b" stands before "a/b"; as paths "a" stands before "a-b".
    assert!(precedes(&a_b, &a_dash_b));
    assert!(!precedes(&a_dash_b, &a_b));
    assert!(precedes(&a_b, &a_b));
    assert!(precedes(&paths_absolute(&["a"]), &a_b));
    assert!(!precedes(&a_b, &paths_absolute(&["a"])));
    assert!(precedes(&paths_relative(&["z"]), &paths_absolute(&["a"])));
}

#[test]
fn sorting_agrees_with_std_paths() {
    let texts = [
        "/r/src/main.rs",
        "/r/src-old/main.rs",
        "/r/src/lib.rs",
        "/r/README.md",
        "/r/src/bin/tool.rs",
        "/r/a.b/c",
        "/r/a/b.c",
        "/r/Zebra",
        "/r/apple",
        "/r/src.rs",
        "/r/src/main.rs",
        "/r/ünï/x",
        "/r/src/a/b/c/d",
    ];
    let mut expected: Vec<PathBuf> = texts.iter().map(PathBuf::from).collect();
    expected.sort();
    let sorted = sort_paths(texts.iter().map(|t| paths_of_text(t)).collect());
    let got: Vec<PathBuf> = sorted.iter().map(|p| PathBuf::from(p.text())).collect();
    assert_eq!(got, expected);
}

#[test]
fn sorting_keeps_every_path() {
    assert!(sort_paths(Vec::new()).is_empty());
    let one = sort_paths(vec![paths_relative(&["x"])]);
    assert_eq!(one.len(), 1);
    assert_eq!(one[0].text(), "x");
    let many: Vec<DiscoveredPath> =
        (0..200).map(|i| paths_relative(&[&format!("f{}", (i * 37) % 101)])).collect();
    let sorted = sort_paths(many);
    assert_eq!(sorted.len(), 200);
    for pair in sorted.windows(2) {
        assert!(precedes(&pair[0], &pair[1]));
    }
    let mut names: Vec<String> = (0..200).map(|i| format!("f{}", (i * 37) % 101)).collect();
    names.sort();
    let got: Vec<String> = sorted.iter().map(|p| p.text()).collect();
    assert_eq!(got, names);
}
