use codebase_context::aggregate::{
    aggregate, collect_outcomes, error_report, Processed, REPORTED_FAILURES,
};
use codebase_context::path::DiscoveredPath;
use codebase_context::transform::FileArtifact;

fn sample_artifact(path: &str, content: &str) -> FileArtifact {
    FileArtifact::new(path.to_string(), String::from("text"), content.to_string(), false)
}

fn sample_root() -> DiscoveredPath {
    DiscoveredPath {
        anchor: String::from("/"),
        names: vec![String::from("home"), String::from("project")],
    }
}

#[test]
fn outcomes_are_parted_in_order() {
    let items = vec![
        Processed { path: String::from("/r/a"), outcome: Ok(Some(sample_artifact("a", "1"))) },
        Processed { path: String::from("/r/b"), outcome: Ok(None) },
        Processed { path: String::from("/r/c"), outcome: Err(String::from("denied")) },
        Processed { path: String::from("/r/d"), outcome: Ok(Some(sample_artifact("d", "2"))) },
        Processed { path: String::from("/r/e"), outcome: Err(String::from("gone")) },
        Processed { path: String::from("/r/f"), outcome: Ok(None) },
    ];
    let (artifacts, failures) = collect_outcomes(items);
    let paths: Vec<&str> = artifacts.iter().map(|a| a.relative_path.as_str()).collect();
    assert_eq!(paths, vec!["a", "d"]);
    assert_eq!(failures, vec!["/r/c: denied", "/r/e: gone"]);
    assert_eq!(artifacts.len() + failures.len() + 2, 6);
}

#[test]
fn no_outcomes_give_nothing() {
    let (artifacts, failures) = collect_outcomes(Vec::new());
    assert!(artifacts.is_empty());
    assert!(failures.is_empty());
}

#[test]
fn report_of_no_failure_is_empty() {
    assert!(error_report(&Vec::new(), true).is_empty());
    assert!(error_report(&Vec::new(), false).is_empty());
}

#[test]
fn report_lists_few_failures_in_full() {
    let failures: Vec<String> = (1..=3).map(|i| format!("f{}: broken", i)).collect();
    assert_eq!(
        error_report(&failures, true),
        vec![
            "⚠️  Encountered 3 errors:",
            "   - f1: broken",
            "   - f2: broken",
            "   - f3: broken",
        ]
    );
    let ten: Vec<String> = (1..=10).map(|i| format!("f{}", i)).collect();
    let report = error_report(&ten, true);
    assert_eq!(report.len(), 11);
    assert_eq!(report[0], "⚠️  Encountered 10 errors:");
    assert_eq!(report[10], "   - f10");
}

#[test]
fn report_is_empty_unless_verbose() {
    let failures: Vec<String> = (1..=3).map(|i| format!("f{}: broken", i)).collect();
    assert!(error_report(&failures, false).is_empty());
    assert_eq!(error_report(&failures, true).len(), 4);
}

#[test]
fn report_caps_many_failures() {
    assert_eq!(REPORTED_FAILURES, 10);
    let failures: Vec<String> = (1..=12).map(|i| format!("f{}", i)).collect();
    let report = error_report(&failures, true);
    assert_eq!(report.len(), 12);
    assert_eq!(report[0], "⚠️  Encountered 12 errors:");
    assert_eq!(report[1], "   - f1");
    assert_eq!(report[10], "   - f10");
    assert_eq!(report[11], "   ... and 2 more.");
    let eleven: Vec<String> = (1..=11).map(|i| format!("f{}", i)).collect();
    assert_eq!(error_report(&eleven, true)[11], "   ... and 1 more.");
}

#[test]
fn totals_are_sums_over_the_artifacts() {
    let artifacts = vec![
        sample_artifact("a", "one\ntwo\nthree\n"),
        sample_artifact("b", "0123456789"),
        sample_artifact("c", "x\ny"),
    ];
    let result = aggregate(
        &sample_root(),
        String::from("2024-01-02 03:04:05"),
        String::from("📂 project/"),
        artifacts,
    )
    .expect("the totals fit");
    assert_eq!(result.total_files, 3);
    assert_eq!(result.total_lines, 3 + 1 + 2);
    assert_eq!(result.total_tokens, 14 / 4 + 10 / 4 + 3 / 4);
    assert_eq!(result.root_name, "project");
    assert_eq!(result.root_path, "/home/project");
    assert_eq!(result.generated_at, "2024-01-02 03:04:05");
    assert_eq!(result.tree, "📂 project/");
    assert_eq!(result.artifacts.len(), 3);
    assert_eq!(result.artifacts[1].relative_path, "b");
}

#[test]
fn totals_of_nothing_are_zero() {
    let result =
        aggregate(&sample_root(), String::new(), String::new(), Vec::new()).expect("fits");
    assert_eq!(result.total_files, 0);
    assert_eq!(result.total_lines, 0);
    assert_eq!(result.total_tokens, 0);
}

#[test]
fn totals_that_do_not_fit_give_no_result() {
    let mut big = sample_artifact("a", "x");
    big.lines = usize::MAX;
    let artifacts = vec![big, sample_artifact("b", "y")];
    assert!(aggregate(&sample_root(), String::new(), String::new(), artifacts).is_none());
    let mut big = sample_artifact("a", "x");
    big.token_estimate = usize::MAX;
    let mut one = sample_artifact("b", "y");
    one.token_estimate = 1;
    assert!(aggregate(&sample_root(), String::new(), String::new(), vec![big, one]).is_none());
    let mut edge = sample_artifact("a", "x");
    edge.lines = usize::MAX - 1;
    let result =
        aggregate(&sample_root(), String::new(), String::new(), vec![edge, sample_artifact("b", "y")]);
    assert_eq!(result.expect("fits").total_lines, usize::MAX);
}
