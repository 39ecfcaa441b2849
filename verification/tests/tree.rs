use codebase_context::path::DiscoveredPath;
use codebase_context::sorting::sort_paths;
use codebase_context::tree::generate_tree;

fn tree_path(text: &str) -> DiscoveredPath {
    DiscoveredPath {
        anchor: String::from("/"),
        names: text.split('/').filter(|s| !s.is_empty()).map(String::from).collect(),
    }
}

#[test]
fn tree_of_sorted_paths_introduces_each_directory_once() {
    let root = tree_path("/work/project");
    let unsorted = vec![
        tree_path("/work/project/src/util/io.rs"),
        tree_path("/work/project/README.md"),
        tree_path("/work/project/src/main.rs"),
        tree_path("/work/project/docs/guide.md"),
        tree_path("/work/project/src/util/fmt.rs"),
        tree_path("/work/project/src/lib.rs"),
    ];
    let tree = generate_tree(&sort_paths(unsorted), &root);
    let expected = [
        "📂 project/",
        "├── README.md",
        "├── docs/",
        "│   ├── guide.md",
        "├── src/",
        "│   ├── lib.rs",
        "│   ├── main.rs",
        "│   ├── util/",
        "│   │   ├── fmt.rs",
        "│   │   ├── io.rs",
    ]
    .join("\n");
    assert_eq!(tree, expected);
    for directory in ["├── docs/", "├── src/", "│   ├── util/"] {
        assert_eq!(tree.lines().filter(|line| *line == directory).count(), 1);
    }
}

#[test]
fn tree_of_unsorted_paths_still_names_a_directory_once() {
    let root = tree_path("/p");
    let paths = vec![tree_path("/p/b/x"), tree_path("/p/a/y"), tree_path("/p/b/z")];
    assert_eq!(
        generate_tree(&paths, &root),
        "📂 p/\n├── b/\n│   ├── x\n├── a/\n│   ├── y\n│   ├── z"
    );
}

#[test]
fn tree_has_a_line_for_the_root_each_file_and_each_directory() {
    let root = tree_path("/w");
    let paths = vec![
        tree_path("/w/a/b/one"),
        tree_path("/w/a/b/two"),
        tree_path("/w/a/three"),
        tree_path("/w/c/b/four"),
        tree_path("/w/five"),
    ];
    // The directories are a, a/b, c and c/b.
    let tree = generate_tree(&sort_paths(paths), &root);
    assert_eq!(tree.lines().count(), 1 + 5 + 4);
    assert_eq!(tree.lines().filter(|line| line.ends_with('/')).count(), 1 + 4);
}

#[test]
fn tree_without_paths_is_the_root_line() {
    assert_eq!(generate_tree(&Vec::new(), &tree_path("/a/root")), "📂 root/");
    assert_eq!(generate_tree(&Vec::new(), &tree_path("/")), "📂 /");
}

#[test]
fn tree_skips_what_is_not_below_the_root() {
    let root = tree_path("/p/q");
    let paths = vec![tree_path("/p/other/x"), tree_path("/p/q"), tree_path("/p/q/kept")];
    assert_eq!(generate_tree(&paths, &root), "📂 q/\n├── kept");
}

#[test]
fn tree_indents_by_depth() {
    let root = tree_path("/r");
    let paths = vec![tree_path("/r/a/b/c/d.txt")];
    assert_eq!(
        generate_tree(&paths, &root),
        "📂 r/\n├── a/\n│   ├── b/\n│   │   ├── c/\n│   │   │   ├── d.txt"
    );
}

#[test]
fn tree_tells_a_file_from_a_directory_of_the_same_name() {
    let root = tree_path("/r");
    let paths = vec![tree_path("/r/a"), tree_path("/r/a/b")];
    assert_eq!(generate_tree(&paths, &root), "📂 r/\n├── a\n├── a/\n│   ├── b");
}

#[test]
fn tree_tells_directories_of_the_same_name_apart() {
    let root = tree_path("/r");
    let paths = vec![tree_path("/r/a/x/f"), tree_path("/r/b/x/g"), tree_path("/r/a/x/h")];
    assert_eq!(
        generate_tree(&paths, &root),
        "📂 r/\n├── a/\n│   ├── x/\n│   │   ├── f\n├── b/\n│   ├── x/\n│   │   ├── g\n│   │   ├── h"
    );
}
