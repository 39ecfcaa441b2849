use codebase_context::path::DiscoveredPath;
use codebase_context::sanitize::SanitizationRuleSet;
use codebase_context::transform::{
    is_binary, process_file, truncate_large, wants_content, FileArtifact, BINARY_PROBE_BYTES,
    CHARS_PER_TOKEN, MAX_FILE_SIZE_BYTES,
};

fn transform_rules() -> SanitizationRuleSet {
    SanitizationRuleSet::new().expect("the patterns compile")
}

fn transform_path(names: &[&str]) -> DiscoveredPath {
    DiscoveredPath {
        anchor: String::from("/"),
        names: names.iter().map(|s| s.to_string()).collect(),
    }
}

fn transform_run(
    names: &[&str],
    size: u64,
    read: Result<Vec<u8>, String>,
) -> Result<Option<FileArtifact>, String> {
    let root = transform_path(&["work", "project"]);
    let mut all = vec!["work", "project"];
    all.extend_from_slice(names);
    process_file(&transform_rules(), &transform_path(&all), &root, size, read)
}

fn numbered_lines(n: usize) -> String {
    (1..=n).map(|i| format!("line {}", i)).collect::<Vec<_>>().join("\n")
}

#[test]
fn limits_are_as_documented() {
    assert_eq!(MAX_FILE_SIZE_BYTES, 1_000_000);
    assert_eq!(CHARS_PER_TOKEN, 4);
    assert_eq!(BINARY_PROBE_BYTES, 8192);
}

#[test]
fn empty_file_is_excluded() {
    assert!(matches!(transform_run(&["a.rs"], 0, Ok(Vec::new())), Ok(None)));
    assert!(matches!(transform_run(&["a.rs"], 0, Ok(b"content".to_vec())), Ok(None)));
    assert!(matches!(
        transform_run(&["a.rs"], 0, Err(String::from("permission denied"))),
        Ok(None)
    ));
    assert!(!wants_content(0));
    assert!(wants_content(1));
    assert!(wants_content(u64::MAX));
}

#[test]
fn large_file_with_150_lines_keeps_head_and_tail() {
    let text = numbered_lines(150);
    let artifact = transform_run(&["big.txt"], 1_000_001, Ok(text.into_bytes()))
        .expect("no failure")
        .expect("included");
    let head = (1..=50).map(|i| format!("line {}", i)).collect::<Vec<_>>().join("\n");
    let tail = (101..=150).map(|i| format!("line {}", i)).collect::<Vec<_>>().join("\n");
    let expected = format!(
        "<!-- TRUNCATED: File too large (1000001 bytes). Showing first 50 and last 50 lines. -->\n{}\n\n... [50 lines omitted] ...\n\n{}",
        head, tail
    );
    assert_eq!(artifact.content, expected);
    assert!(artifact.is_truncated);
    assert!(artifact.content.contains("line 50\n"));
    assert!(!artifact.content.contains("line 51\n"));
    assert!(!artifact.content.contains("line 100\n"));
    assert!(artifact.content.contains("line 101\n"));
    assert!(artifact.content.ends_with("line 150"));
    assert_eq!(artifact.lines, 1 + 50 + 1 + 1 + 1 + 50);
    assert_eq!(artifact.token_estimate, expected.len() / 4);
}

#[test]
fn large_file_with_60_lines_is_replaced_by_a_warning() {
    let text = numbered_lines(60);
    let artifact = transform_run(&["wide.json"], 2_500_000, Ok(text.into_bytes()))
        .expect("no failure")
        .expect("included");
    assert_eq!(
        artifact.content,
        "<!-- WARNING: File too large (2500000 bytes). Truncated. -->\n"
    );
    assert!(artifact.is_truncated);
    assert_eq!(artifact.lines, 1);
    assert_eq!(artifact.language, "json");
}

#[test]
fn large_file_at_the_line_boundary() {
    let at = truncate_large(1_000_001, &numbered_lines(100));
    assert_eq!(at, "<!-- WARNING: File too large (1000001 bytes). Truncated. -->\n");
    let over = truncate_large(1_000_001, &numbered_lines(101));
    let head = (1..=50).map(|i| format!("line {}", i)).collect::<Vec<_>>().join("\n");
    let tail = (52..=101).map(|i| format!("line {}", i)).collect::<Vec<_>>().join("\n");
    assert_eq!(
        over,
        format!(
            "<!-- TRUNCATED: File too large (1000001 bytes). Showing first 50 and last 50 lines. -->\n{}\n\n... [1 lines omitted] ...\n\n{}",
            head, tail
        )
    );
}

#[test]
fn size_limit_is_exclusive() {
    let text = numbered_lines(150);
    let artifact = transform_run(&["at.txt"], 1_000_000, Ok(text.clone().into_bytes()))
        .expect("no failure")
        .expect("included");
    assert_eq!(artifact.content, text);
    assert!(!artifact.is_truncated);
    assert_eq!(artifact.lines, 150);
}

#[test]
fn large_file_that_is_not_text_is_excluded() {
    assert!(matches!(
        transform_run(&["blob.bin"], 1_000_001, Ok(vec![b'a', 0xff, b'b'])),
        Ok(None)
    ));
}

#[test]
fn read_failure_of_a_large_file_is_reported() {
    let r = transform_run(&["gone.txt"], 1_000_001, Err(String::from("vanished")));
    assert_eq!(r.unwrap_err(), "vanished");
    let r = transform_run(&["huge.bin"], u64::MAX, Err(String::from("permission denied")));
    assert_eq!(r.unwrap_err(), "permission denied");
}

#[test]
fn large_text_with_a_null_byte_is_no_binary() {
    let mut text = numbered_lines(10).into_bytes();
    text.push(0);
    let artifact = transform_run(&["odd.txt"], 1_000_001, Ok(text))
        .expect("no failure")
        .expect("included");
    assert!(artifact.is_truncated);
}

#[test]
fn small_binary_file_is_excluded() {
    assert!(matches!(transform_run(&["a.out"], 3, Ok(vec![b'a', 0, b'b'])), Ok(None)));
    let mut late = vec![b'x'; BINARY_PROBE_BYTES - 1];
    late.push(0);
    assert!(matches!(transform_run(&["b.out"], 8192, Ok(late)), Ok(None)));
}

#[test]
fn null_byte_behind_the_probe_is_not_seen() {
    let mut bytes = vec![b'x'; BINARY_PROBE_BYTES];
    bytes.push(0);
    let artifact = transform_run(&["c.out"], 8193, Ok(bytes))
        .expect("no failure")
        .expect("included");
    assert_eq!(artifact.content.len(), 8193);
    assert!(artifact.content.ends_with('\0'));
    assert!(!artifact.is_truncated);
}

#[test]
fn binary_probe() {
    assert!(!is_binary(b""));
    assert!(!is_binary(b"plain text"));
    assert!(is_binary(b"\0"));
    assert!(is_binary(b"ab\0cd"));
    let mut bytes = vec![1u8; BINARY_PROBE_BYTES + 10];
    assert!(!is_binary(&bytes));
    bytes[BINARY_PROBE_BYTES] = 0;
    assert!(!is_binary(&bytes));
    bytes[BINARY_PROBE_BYTES - 1] = 0;
    assert!(is_binary(&bytes));
}

#[test]
fn read_failure_of_a_small_file_is_reported() {
    let r = transform_run(&["locked.rs"], 10, Err(String::from("permission denied")));
    assert_eq!(r.unwrap_err(), "permission denied");
    let r = transform_run(&["locked.rs"], 1_000_000, Err(String::from("io")));
    assert_eq!(r.unwrap_err(), "io");
}

#[test]
fn blank_content_is_excluded() {
    assert!(matches!(transform_run(&["blank.txt"], 4, Ok(b" \n\t\n".to_vec())), Ok(None)));
    assert!(matches!(
        transform_run(&["blank.txt"], 3, Ok("\u{3000}".as_bytes().to_vec())),
        Ok(None)
    ));
    assert!(matches!(transform_run(&["shrunk.txt"], 5, Ok(Vec::new())), Ok(None)));
}

#[test]
fn invalid_bytes_of_a_small_file_are_replaced() {
    let artifact = transform_run(&["latin.txt"], 3, Ok(vec![b'a', 0xff, b'b']))
        .expect("no failure")
        .expect("included");
    assert_eq!(artifact.content, "a\u{fffd}b");
    assert_eq!(artifact.token_estimate, 5 / 4);
}

#[test]
fn artifact_carries_path_language_and_counts() {
    let text = "fn main() {\n    println!(\"hi\");\n}\n";
    let artifact = transform_run(&["src", "bin", "Main.RS"], text.len() as u64, Ok(text.into()))
        .expect("no failure")
        .expect("included");
    assert_eq!(artifact.relative_path, "src/bin/Main.RS");
    assert_eq!(artifact.language, "rust");
    assert_eq!(artifact.content, text);
    assert_eq!(artifact.lines, 3);
    assert_eq!(artifact.token_estimate, text.len() / 4);
    assert!(!artifact.is_truncated);
}

#[test]
fn counts_are_those_of_the_sanitized_content() {
    let value = "0123456789abcdef".repeat(2);
    let text = format!("line one\n{} = {}{}{}\nline three", "api_key", '"', value, '"');
    let artifact = transform_run(&["conf.toml"], text.len() as u64, Ok(text.into_bytes()))
        .expect("no failure")
        .expect("included");
    let expected = "line one\n[REDACTED SECRET]\nline three";
    assert_eq!(artifact.content, expected);
    assert_eq!(artifact.lines, 3);
    assert_eq!(artifact.token_estimate, expected.len() / 4);
    assert_eq!(artifact.language, "toml");
}

#[test]
fn excerpt_of_a_large_file_is_sanitized() {
    let mut lines: Vec<String> = (1..=150).map(|i| format!("line {}", i)).collect();
    // Put together from parts, so that no line here has the shape of a secret.
    lines[2] = ["AK", "IA", "IOSFODNN", "7EXAMPLE"].concat();
    lines[75] = ["sk", "-", &"ab".repeat(12)].concat();
    let artifact = transform_run(&["keys.txt"], 3_000_000, Ok(lines.join("\n").into_bytes()))
        .expect("no failure")
        .expect("included");
    assert!(artifact.content.contains("line 2\n[REDACTED SECRET]\nline 4"));
    assert!(!artifact.content.contains(&["AK", "IA"].concat()));
    assert!(!artifact.content.contains(&["sk", "-"].concat()));
}

#[test]
fn tokens_count_bytes_not_characters() {
    let artifact = FileArtifact::new(
        String::from("p"),
        String::from("text"),
        String::from("ééééé"),
        false,
    );
    assert_eq!(artifact.token_estimate, 10 / 4);
    assert_eq!(artifact.lines, 1);
    let empty = FileArtifact::new(String::new(), String::new(), String::new(), true);
    assert_eq!(empty.token_estimate, 0);
    assert_eq!(empty.lines, 0);
    assert!(empty.is_truncated);
}

#[test]
fn path_outside_the_root_is_shown_in_full() {
    let root = transform_path(&["work", "project"]);
    let path = transform_path(&["etc", "hosts.md"]);
    let artifact = process_file(&transform_rules(), &path, &root, 2, Ok(b"hi".to_vec()))
        .expect("no failure")
        .expect("included");
    assert_eq!(artifact.relative_path, "/etc/hosts.md");
    assert_eq!(artifact.language, "markdown");
}
