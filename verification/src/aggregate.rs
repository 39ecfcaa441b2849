//! From the outcomes of the files to the result of the run: the artifacts in
//! the order of their paths, the failures as lines of a report, and the
//! totals over the artifacts.

use crate::path::{DiscoveredPath, PathView};
use crate::text::{decimal_text, push_decimal};
use crate::transform::{ArtifactView, FileArtifact};
use vstd::prelude::*;
use vstd::string::StringExecFns;

verus! {

/// What became of one file.
#[derive(Debug)]
pub struct Processed {
    /// The path of the file, written out.
    pub path: String,
    /// Its artifact, `None` where the file was left out, or the cause for
    /// which it could not be processed.
    pub outcome: Result<Option<FileArtifact>, String>,
}

/// The views of the artifacts, in their order.
pub open spec fn artifact_views(artifacts: Seq<FileArtifact>) -> Seq<ArtifactView> {
    Seq::new(artifacts.len(), |i: int| artifacts[i]@)
}

/// The line that reports a failure.
pub open spec fn failure_line(path: Seq<char>, cause: Seq<char>) -> Seq<char> {
    path + ": "@ + cause
}

/// The artifacts of the files that were included, in the order of the files.
pub open spec fn included(items: Seq<Processed>) -> Seq<ArtifactView>
    decreases items.len(),
{
    if items.len() == 0 {
        Seq::empty()
    } else {
        match items.last().outcome {
            Ok(Some(artifact)) => included(items.drop_last()).push(artifact@),
            _ => included(items.drop_last()),
        }
    }
}

/// The lines that report the files that failed, in the order of the files.
pub open spec fn failures(items: Seq<Processed>) -> Seq<Seq<char>>
    decreases items.len(),
{
    if items.len() == 0 {
        Seq::empty()
    } else {
        match items.last().outcome {
            Err(cause) => failures(items.drop_last()).push(
                failure_line(items.last().path@, cause@),
            ),
            _ => failures(items.drop_last()),
        }
    }
}

/// The number of files that were left out without a failure.
pub open spec fn excluded_count(items: Seq<Processed>) -> nat
    decreases items.len(),
{
    if items.len() == 0 {
        0
    } else {
        match items.last().outcome {
            Ok(None) => excluded_count(items.drop_last()) + 1,
            _ => excluded_count(items.drop_last()),
        }
    }
}

/// Every file is included, left out or failed, and is only one of these.
pub proof fn law_outcomes_partition(items: Seq<Processed>)
    ensures
        included(items).len() + excluded_count(items) + failures(items).len() == items.len(),
    decreases items.len(),
{
    if items.len() > 0 {
        law_outcomes_partition(items.drop_last());
    }
}

/// Reverses a list.
fn reversed(items: Vec<Processed>) -> (out: Vec<Processed>)
    ensures
        out@ == items@.reverse(),
{
    let mut items = items;
    let mut out: Vec<Processed> = Vec::new();
    let ghost all = items@;
    while items.len() > 0
        invariant
            items@.len() <= all.len(),
            items@ == all.take(items@.len() as int),
            out@.len() == all.len() - items@.len(),
            forall|k: int| 0 <= k < out@.len() ==> out@[k] == all[all.len() - 1 - k],
        decreases items.len(),
    {
        let last = items.pop();
        match last {
            Some(item) => {
                out.push(item);
            },
            None => {},
        }
    }
    out
}

/// Parts the outcomes into the artifacts and the lines of the failures. Both
/// keep the order of the files; what was left out appears in neither.
pub fn collect_outcomes(items: Vec<Processed>) -> (r: (Vec<FileArtifact>, Vec<String>))
    ensures
        artifact_views(r.0@) == included(items@),
        r.1.deep_view() == failures(items@),
{
    let mut rest = reversed(items);
    let mut artifacts: Vec<FileArtifact> = Vec::new();
    let mut errors: Vec<String> = Vec::new();
    let ghost all = items@;
    let ghost mut n: int = 0;
    while rest.len() > 0
        invariant
            0 <= n <= all.len(),
            rest@.len() == all.len() - n,
            forall|k: int| 0 <= k < rest@.len() ==> rest@[k] == all[all.len() - 1 - k],
            artifact_views(artifacts@) == included(all.take(n)),
            errors.deep_view() == failures(all.take(n)),
        decreases rest.len(),
    {
        let ghost before_artifacts = artifact_views(artifacts@);
        let ghost before_errors = errors.deep_view();
        let next = rest.pop();
        proof {
            assert(all.take(n + 1).drop_last() =~= all.take(n));
        }
        match next {
            Some(item) => {
                match item.outcome {
                    Ok(Some(artifact)) => {
                        artifacts.push(artifact);
                        assert(artifact_views(artifacts@) =~= before_artifacts.push(artifact@));
                    },
                    Ok(None) => {},
                    Err(cause) => {
                        let mut line = item.path;
                        line.append(": ");
                        line.append(cause.as_str());
                        errors.push(line);
                        assert(errors.deep_view() =~= before_errors.push(
                            failure_line(all[n].path@, cause@),
                        ));
                    },
                }
            },
            None => {},
        }
        proof {
            n = n + 1;
        }
    }
    assert(all.take(all.len() as int) =~= all);
    (artifacts, errors)
}

/// How many failures are listed one by one.
pub const REPORTED_FAILURES: usize = 10;

/// The first line of the report of `count` failures.
pub open spec fn report_heading(count: nat) -> Seq<char> {
    "⚠️  Encountered "@ + decimal_text(count) + " errors:"@
}

/// The line that lists one failure.
pub open spec fn report_item(failure: Seq<char>) -> Seq<char> {
    "   - "@ + failure
}

/// The last line of a report that does not list `count` of the failures.
pub open spec fn report_rest(count: nat) -> Seq<char> {
    "   ... and "@ + decimal_text(count) + " more."@
}

/// The report of the failures: nothing where there is none, or where the
/// run is not verbose; else a heading with their number, the first
/// `REPORTED_FAILURES` of them, and the number of the others where there are
/// more.
pub open spec fn report_of(failures: Seq<Seq<char>>, verbose: bool) -> Seq<Seq<char>> {
    if failures.len() == 0 || !verbose {
        Seq::empty()
    } else if failures.len() <= REPORTED_FAILURES {
        seq![report_heading(failures.len())] + Seq::new(
            failures.len(),
            |i: int| report_item(failures[i]),
        )
    } else {
        (seq![report_heading(failures.len())] + Seq::new(
            REPORTED_FAILURES as nat,
            |i: int| report_item(failures[i]),
        )).push(report_rest((failures.len() - REPORTED_FAILURES) as nat))
    }
}

/// The lines that report the failures to the user. Failures are reported
/// only in a verbose run.
pub fn error_report(failures: &Vec<String>, verbose: bool) -> (lines: Vec<String>)
    ensures
        lines.deep_view() == report_of(failures.deep_view(), verbose),
{
    let mut lines: Vec<String> = Vec::new();
    let n = failures.len();
    let ghost all = failures.deep_view();
    if n == 0 || !verbose {
        return lines;
    }
    let mut heading = String::new();
    heading.append("⚠️  Encountered ");
    push_decimal(&mut heading, n as u64);
    heading.append(" errors:");
    lines.push(heading);
    let shown = if n <= REPORTED_FAILURES {
        n
    } else {
        REPORTED_FAILURES
    };
    let mut i: usize = 0;
    assert(lines.deep_view() =~= seq![report_heading(n as nat)] + Seq::new(
        0,
        |k: int| report_item(all[k]),
    ));
    while i < shown
        invariant
            i <= shown <= n,
            n == failures.len(),
            all == failures.deep_view(),
            lines.deep_view() == seq![report_heading(n as nat)] + Seq::new(
                i as nat,
                |k: int| report_item(all[k]),
            ),
        decreases shown - i,
    {
        let ghost before = lines.deep_view();
        let mut line = String::new();
        line.append("   - ");
        line.append(failures[i].as_str());
        lines.push(line);
        assert(lines.deep_view() =~= before.push(report_item(all[i as int])));
        assert(lines.deep_view() =~= seq![report_heading(n as nat)] + Seq::new(
            (i + 1) as nat,
            |k: int| report_item(all[k]),
        ));
        i += 1;
    }
    if n > REPORTED_FAILURES {
        let mut line = String::new();
        line.append("   ... and ");
        push_decimal(&mut line, (n - REPORTED_FAILURES) as u64);
        line.append(" more.");
        lines.push(line);
    }
    lines
}

/// The sum of the line counts of the artifacts.
pub open spec fn total_lines(artifacts: Seq<ArtifactView>) -> nat
    decreases artifacts.len(),
{
    if artifacts.len() == 0 {
        0
    } else {
        total_lines(artifacts.drop_last()) + artifacts.last().lines
    }
}

/// The sum of the token estimates of the artifacts.
pub open spec fn total_tokens(artifacts: Seq<ArtifactView>) -> nat
    decreases artifacts.len(),
{
    if artifacts.len() == 0 {
        0
    } else {
        total_tokens(artifacts.drop_last()) + artifacts.last().token_estimate
    }
}

/// The result of a run: what every encoding of the output carries.
#[derive(Debug)]
pub struct AggregationResult {
    /// The root of the scan, written out.
    pub root_path: String,
    /// The name of the root of the scan.
    pub root_name: String,
    /// When the output was generated, as it is to be shown.
    pub generated_at: String,
    pub total_files: usize,
    pub total_lines: usize,
    pub total_tokens: usize,
    /// The directory tree of the files of the scan.
    pub tree: String,
    /// The artifacts, in the order of their paths.
    pub artifacts: Vec<FileArtifact>,
}

/// A result as contracts see it.
pub struct AggregationView {
    pub root_path: Seq<char>,
    pub root_name: Seq<char>,
    pub generated_at: Seq<char>,
    pub total_files: nat,
    pub total_lines: nat,
    pub total_tokens: nat,
    pub tree: Seq<char>,
    pub artifacts: Seq<ArtifactView>,
}

impl View for AggregationResult {
    type V = AggregationView;

    open spec fn view(&self) -> AggregationView {
        AggregationView {
            root_path: self.root_path@,
            root_name: self.root_name@,
            generated_at: self.generated_at@,
            total_files: self.total_files as nat,
            total_lines: self.total_lines as nat,
            total_tokens: self.total_tokens as nat,
            tree: self.tree@,
            artifacts: artifact_views(self.artifacts@),
        }
    }
}

impl AggregationView {
    /// The totals are those of the artifacts, and of nothing else.
    pub open spec fn well_formed(self) -> bool {
        &&& self.total_files == self.artifacts.len()
        &&& self.total_lines == total_lines(self.artifacts)
        &&& self.total_tokens == total_tokens(self.artifacts)
    }
}

/// The result of a run over `root` with the given artifacts.
pub open spec fn aggregation_of(
    root: PathView,
    generated_at: Seq<char>,
    tree: Seq<char>,
    artifacts: Seq<ArtifactView>,
) -> AggregationView {
    AggregationView {
        root_path: root.text(),
        root_name: root.file_name(),
        generated_at,
        total_files: artifacts.len(),
        total_lines: total_lines(artifacts),
        total_tokens: total_tokens(artifacts),
        tree,
        artifacts,
    }
}

/// Puts the result of a run together. The totals are the sums over the
/// artifacts; where a sum does not fit the machine's word there is no
/// result.
pub fn aggregate(
    root: &DiscoveredPath,
    generated_at: String,
    tree: String,
    artifacts: Vec<FileArtifact>,
) -> (r: Option<AggregationResult>)
    ensures
        r is Some <==> total_lines(artifact_views(artifacts@)) <= usize::MAX && total_tokens(
            artifact_views(artifacts@),
        ) <= usize::MAX,
        r matches Some(result) ==> result@ == aggregation_of(
            root@,
            generated_at@,
            tree@,
            artifact_views(artifacts@),
        ) && result@.well_formed(),
{
    let ghost all = artifact_views(artifacts@);
    let mut lines: usize = 0;
    let mut tokens: usize = 0;
    let mut i: usize = 0;
    while i < artifacts.len()
        invariant
            i <= artifacts.len(),
            all == artifact_views(artifacts@),
            lines == total_lines(all.take(i as int)),
            tokens == total_tokens(all.take(i as int)),
        decreases artifacts.len() - i,
    {
        proof {
            assert(all.take(i + 1).drop_last() =~= all.take(i as int));
            lemma_totals_grow(all, i + 1);
        }
        match lines.checked_add(artifacts[i].lines) {
            Some(sum) => {
                lines = sum;
            },
            None => {
                return None;
            },
        }
        match tokens.checked_add(artifacts[i].token_estimate) {
            Some(sum) => {
                tokens = sum;
            },
            None => {
                return None;
            },
        }
        i += 1;
    }
    assert(all.take(all.len() as int) =~= all);
    Some(
        AggregationResult {
            root_path: root.text(),
            root_name: root.file_name(),
            generated_at,
            total_files: artifacts.len(),
            total_lines: lines,
            total_tokens: tokens,
            tree,
            artifacts,
        },
    )
}

/// The totals of the first `n` artifacts are no more than those of all.
proof fn lemma_totals_grow(artifacts: Seq<ArtifactView>, n: int)
    requires
        0 <= n <= artifacts.len(),
    ensures
        total_lines(artifacts.take(n)) <= total_lines(artifacts),
        total_tokens(artifacts.take(n)) <= total_tokens(artifacts),
    decreases artifacts.len() - n,
{
    if n < artifacts.len() {
        lemma_totals_grow(artifacts, n + 1);
        assert(artifacts.take(n + 1).drop_last() =~= artifacts.take(n));
    } else {
        assert(artifacts.take(n) =~= artifacts);
    }
}

} // verus!
