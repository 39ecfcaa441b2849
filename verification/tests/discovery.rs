use codebase_context::discovery::{
    build_exclusions, discover, exclude_glob, is_eligible, walk_policy, ExcludeError, WalkEntry,
};
use codebase_context::path::DiscoveredPath;
use std::path::PathBuf;

fn found_path(text: &str) -> DiscoveredPath {
    DiscoveredPath {
        anchor: String::from("/"),
        names: text.split('/').filter(|s| !s.is_empty()).map(String::from).collect(),
    }
}

fn found_file(text: &str) -> WalkEntry {
    WalkEntry { path: found_path(text), is_file: true, canonical: Some(found_path(text)) }
}

fn found_texts(paths: &[DiscoveredPath]) -> Vec<String> {
    paths.iter().map(|p| p.text()).collect()
}

#[test]
fn destination_is_never_discovered() {
    let destination = found_path("/repo/codebase_context.md");
    let entries = vec![
        found_file("/repo/src/main.rs"),
        found_file("/repo/codebase_context.md"),
        found_file("/repo/README.md"),
    ];
    let paths = discover(entries, &destination);
    assert_eq!(found_texts(&paths), vec!["/repo/README.md", "/repo/src/main.rs"]);
}

#[test]
fn destination_is_told_by_its_resolved_path() {
    let destination = found_path("/repo/out/context.md");
    let link = WalkEntry {
        path: found_path("/repo/latest.md"),
        is_file: true,
        canonical: Some(found_path("/repo/out/context.md")),
    };
    assert!(!is_eligible(&link, &destination));
    let unresolved = WalkEntry {
        path: found_path("/repo/out/context.md"),
        is_file: true,
        canonical: None,
    };
    assert!(is_eligible(&unresolved, &destination));
    let elsewhere = WalkEntry {
        path: found_path("/repo/out/context.md"),
        is_file: true,
        canonical: Some(found_path("/data/context.md")),
    };
    assert!(is_eligible(&elsewhere, &destination));
}

#[test]
fn version_control_metadata_is_never_discovered() {
    let destination = found_path("/elsewhere/out.md");
    let entries = vec![
        found_file("/repo/.git/config"),
        found_file("/repo/.git/objects/ab/cdef"),
        found_file("/repo/sub/.git/HEAD"),
        found_file("/repo/.gitignore"),
        found_file("/repo/.github/workflows/ci.yml"),
        found_file("/repo/git/notes.txt"),
        found_file("/repo/.git"),
    ];
    let paths = discover(entries, &destination);
    assert_eq!(
        found_texts(&paths),
        vec!["/repo/.github/workflows/ci.yml", "/repo/.gitignore", "/repo/git/notes.txt"]
    );
    for path in &paths {
        assert!(!path.has_name(".git"));
    }
}

#[test]
fn only_files_are_discovered() {
    let destination = found_path("/out.md");
    let directory = WalkEntry { path: found_path("/repo/src"), is_file: false, canonical: None };
    assert!(!is_eligible(&directory, &destination));
    let entries = vec![
        WalkEntry { path: found_path("/repo"), is_file: false, canonical: None },
        found_file("/repo/b.txt"),
        directory,
        found_file("/repo/a.txt"),
    ];
    assert_eq!(found_texts(&discover(entries, &destination)), vec!["/repo/a.txt", "/repo/b.txt"]);
}

#[test]
fn discovered_paths_are_sorted_name_by_name() {
    let destination = found_path("/out.md");
    let entries = vec![
        found_file("/r/src/z.rs"),
        found_file("/r/src-gen/a.rs"),
        found_file("/r/src/a/b.rs"),
        found_file("/r/Cargo.toml"),
        found_file("/r/src/a.rs"),
    ];
    assert_eq!(
        found_texts(&discover(entries, &destination)),
        vec!["/r/Cargo.toml", "/r/src/a/b.rs", "/r/src/a.rs", "/r/src/z.rs", "/r/src-gen/a.rs"]
    );
    assert!(discover(Vec::new(), &destination).is_empty());
}

#[test]
fn walk_takes_hidden_files_and_follows_no_link() {
    let policy = walk_policy();
    assert!(!policy.skip_hidden);
    assert!(policy.honor_ignore_files);
    assert!(!policy.follow_links);
}

#[test]
fn hidden_files_are_eligible() {
    let destination = found_path("/out.md");
    assert!(is_eligible(&found_file("/r/.env.example"), &destination));
    assert!(is_eligible(&found_file("/r/.hidden/file"), &destination));
}

#[test]
fn exclusion_glob_is_the_pattern_negated() {
    assert_eq!(exclude_glob("*.log"), "!*.log");
    assert_eq!(exclude_glob(""), "!");
    assert_eq!(exclude_glob("target/"), "!target/");
}

#[test]
fn sensitive_files_are_always_excluded() {
    let matcher = build_exclusions(PathBuf::from("/repo"), &Vec::new()).expect("valid");
    for name in [
        ".env",
        "prod.env",
        "app.env.local",
        "server.pem",
        "private.key",
        "id_rsa",
        "id_ed25519",
        "store.p12",
        "cert.pfx",
        "deep/down/id_rsa",
    ] {
        assert!(matcher.matched(format!("/repo/{}", name), false).is_ignore(), "{}", name);
    }
    for name in ["main.rs", "id_rsa.pub", "environment.md", "keys.txt"] {
        assert!(!matcher.matched(format!("/repo/{}", name), false).is_ignore(), "{}", name);
    }
    assert_eq!(matcher.num_ignores(), 8);
    assert_eq!(matcher.num_whitelists(), 0);
}

#[test]
fn user_patterns_are_excluded_too() {
    let user = vec![String::from("*.log"), String::from("target/")];
    let matcher = build_exclusions(PathBuf::from("/repo"), &user).expect("valid");
    assert!(matcher.matched("/repo/debug.log", false).is_ignore());
    assert!(matcher.matched("/repo/target", true).is_ignore());
    assert!(matcher.matched("/repo/secret.pem", false).is_ignore());
    assert!(!matcher.matched("/repo/src/lib.rs", false).is_ignore());
    assert_eq!(matcher.num_ignores(), 10);
}

#[test]
fn user_pattern_cannot_bring_a_sensitive_file_back() {
    let user = vec![String::from("!*.pem")];
    let matcher = build_exclusions(PathBuf::from("/repo"), &user).expect("valid");
    assert!(matcher.matched("/repo/server.pem", false).is_ignore());
}

#[test]
fn invalid_user_pattern_is_refused() {
    let user = vec![String::from("*.log"), String::from("a[")];
    match build_exclusions(PathBuf::from("/repo"), &user) {
        Err(ExcludeError::InvalidPattern { index, cause }) => {
            assert_eq!(index, 1);
            assert!(!cause.is_empty());
        },
        other => panic!("unexpected {:?}", other.map(|_| ())),
    }
    let e = build_exclusions(PathBuf::from("/repo"), &vec![String::from("{a,b")])
        .map(|_| ())
        .unwrap_err();
    assert_eq!(e.message(), "Invalid exclude pattern");
    assert!(matches!(e, ExcludeError::InvalidPattern { index: 0, .. }));
}

#[test]
fn white_space_at_the_end_of_a_pattern_is_cut() {
    let user = vec![String::from("*.log \t"), String::from("notes.txt  ")];
    let matcher = build_exclusions(PathBuf::from("/repo"), &user).expect("valid");
    assert_eq!(matcher.num_ignores(), 10);
    assert!(matcher.matched("/repo/debug.log", false).is_ignore());
    assert!(!matcher.matched("/repo/debug.log \t", false).is_ignore());
    assert!(matcher.matched("/repo/notes.txt", false).is_ignore());
}

#[test]
fn escaped_blank_at_the_end_of_a_pattern_is_kept() {
    let user = vec![String::from("odd\\ ")];
    let matcher = build_exclusions(PathBuf::from("/repo"), &user).expect("valid");
    assert_eq!(matcher.num_ignores(), 9);
    assert!(matcher.matched("/repo/odd ", false).is_ignore());
    assert!(!matcher.matched("/repo/odd", false).is_ignore());
}

#[test]
fn pattern_of_a_comment_is_a_glob_of_its_own() {
    // The glob handed over begins with the mark of exclusion, so a pattern
    // that begins with `#` is no comment.
    let user = vec![String::from("#notes")];
    let matcher = build_exclusions(PathBuf::from("/repo"), &user).expect("valid");
    assert_eq!(matcher.num_ignores(), 9);
    assert!(matcher.matched("/repo/#notes", false).is_ignore());
}

#[test]
fn patterns_match_relative_to_the_root() {
    let user = vec![String::from("/build"), String::from("docs/*.tmp")];
    let matcher = build_exclusions(PathBuf::from("/repo"), &user).expect("valid");
    assert!(matcher.matched("/repo/build", true).is_ignore());
    assert!(!matcher.matched("/repo/sub/build", true).is_ignore());
    assert!(matcher.matched("/repo/docs/a.tmp", false).is_ignore());
    assert!(!matcher.matched("/repo/other/a.tmp", false).is_ignore());
    assert_eq!(matcher.path(), PathBuf::from("/repo").as_path());
}
