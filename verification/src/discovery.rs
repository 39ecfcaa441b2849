//! Which of the entries of a walk are files to process, and in which order;
//! and the globs that keep sensitive files out of the walk.
//!
//! The walk itself reads the file system and is not done here. It hands over
//! what it found; the rules are applied to that.

use crate::order::sorted;
use crate::path::{views_of, DiscoveredPath, PathView};
use crate::sorting::{bag_of, lemma_empty_bag, sort_paths};
use crate::text::{is_white_space, lemma_trim_end_keeps_start, push_char, trim_end};
use ignore::overrides::{Override, OverrideBuilder};
use std::path::PathBuf;
use vstd::prelude::*;
use vstd::seq_lib::to_multiset_build;
use vstd::string::StringExecFns;

verus! {

/// How the walk is to go about the directory.
#[derive(Debug, Clone, Copy, PartialEq, Eq, Structural)]
pub struct WalkPolicy {
    /// Whether files and directories whose name begins with a full stop are
    /// passed over.
    pub skip_hidden: bool,
    /// Whether the ignore files of version control are honored.
    pub honor_ignore_files: bool,
    /// Whether symbolic links are followed.
    pub follow_links: bool,
}

/// The policy of every walk: hidden files are eligible like any other, what
/// version control ignores is passed over, and no symbolic link is followed,
/// so that the walk cannot run in a circle or come upon a file twice.
pub fn walk_policy() -> (policy: WalkPolicy)
    ensures
        policy == (WalkPolicy {
            skip_hidden: false,
            honor_ignore_files: true,
            follow_links: false,
        }),
{
    WalkPolicy { skip_hidden: false, honor_ignore_files: true, follow_links: false }
}

/// One entry of the walk, with what the file system said of it.
#[derive(Debug, Clone)]
pub struct WalkEntry {
    /// The path as the walk gave it.
    pub path: DiscoveredPath,
    /// Whether the path leads to a regular file.
    pub is_file: bool,
    /// The path with every link in it resolved, where that could be done.
    pub canonical: Option<DiscoveredPath>,
}

/// An entry as contracts see it.
pub struct EntryView {
    pub path: PathView,
    pub is_file: bool,
    pub canonical: Option<PathView>,
}

impl View for WalkEntry {
    type V = EntryView;

    open spec fn view(&self) -> EntryView {
        EntryView {
            path: self.path@,
            is_file: self.is_file,
            canonical: match self.canonical {
                Some(path) => Some(path@),
                None => None,
            },
        }
    }
}

/// The views of the entries, in their order.
pub open spec fn entry_views(entries: Seq<WalkEntry>) -> Seq<EntryView> {
    Seq::new(entries.len(), |i: int| entries[i]@)
}

/// The name of the directory in which version control keeps its own files.
pub open spec fn metadata_directory() -> Seq<char> {
    ".git"@
}

/// An entry is eligible if it is a regular file, is not the destination of
/// the output, and does not lie in a directory of version control.
pub open spec fn eligible(entry: EntryView, destination: PathView) -> bool {
    &&& entry.is_file
    &&& entry.canonical != Some(destination)
    &&& !entry.path.has_name(metadata_directory())
}

/// The paths of the eligible entries, in the order of the entries.
pub open spec fn eligible_paths(entries: Seq<EntryView>, destination: PathView) -> Seq<PathView>
    decreases entries.len(),
{
    if entries.len() == 0 {
        Seq::empty()
    } else if eligible(entries.last(), destination) {
        eligible_paths(entries.drop_last(), destination).push(entries.last().path)
    } else {
        eligible_paths(entries.drop_last(), destination)
    }
}

/// Whether `path` is the path of an eligible entry.
pub open spec fn is_eligible_path(
    entries: Seq<EntryView>,
    destination: PathView,
    path: PathView,
) -> bool {
    exists|i: int|
        0 <= i < entries.len() && eligible(#[trigger] entries[i], destination) && entries[i].path
            == path
}

/// Whether the entry is a file to process.
pub fn is_eligible(entry: &WalkEntry, destination: &DiscoveredPath) -> (r: bool)
    ensures
        r == eligible(entry@, destination@),
{
    if !entry.is_file {
        return false;
    }
    let is_destination = match &entry.canonical {
        Some(path) => path.same_as(destination),
        None => false,
    };
    !is_destination && !entry.path.has_name(".git")
}

/// Every eligible path is the path of an eligible entry.
pub proof fn lemma_eligible_paths_come_from_entries(
    entries: Seq<EntryView>,
    destination: PathView,
    k: int,
)
    requires
        0 <= k < eligible_paths(entries, destination).len(),
    ensures
        is_eligible_path(entries, destination, eligible_paths(entries, destination)[k]),
    decreases entries.len(),
{
    let paths = eligible_paths(entries, destination);
    if eligible(entries.last(), destination) && k == paths.len() - 1 {
        assert(entries[entries.len() - 1].path == paths[k]);
    } else {
        let before = entries.drop_last();
        lemma_eligible_paths_come_from_entries(before, destination, k);
        let i = choose|i: int|
            0 <= i < before.len() && eligible(#[trigger] before[i], destination) && before[i].path
                == eligible_paths(before, destination)[k];
        assert(entries[i] == before[i]);
    }
}

/// The files to process, in their order: the paths of the eligible entries,
/// sorted. No path in the result has a directory of version control among
/// its names, and each is the path of an entry that is a file and not the
/// destination.
pub fn discover(entries: Vec<WalkEntry>, destination: &DiscoveredPath) -> (paths: Vec<
    DiscoveredPath,
>)
    ensures
        sorted(views_of(paths@)),
        bag_of(paths@) == eligible_paths(entry_views(entries@), destination@).to_multiset(),
        forall|k: int|
            0 <= k < paths@.len() ==> !(#[trigger] paths@[k])@.has_name(metadata_directory()),
        forall|k: int|
            0 <= k < paths@.len() ==> is_eligible_path(
                entry_views(entries@),
                destination@,
                (#[trigger] paths@[k])@,
            ),
{
    let mut rest = entries;
    let mut kept: Vec<DiscoveredPath> = Vec::new();
    let ghost all = entry_views(entries@);
    let ghost wanted = eligible_paths(all, destination@).to_multiset();
    proof {
        lemma_empty_bag(views_of(kept@));
        assert(bag_of(kept@).add(eligible_paths(entry_views(rest@), destination@).to_multiset())
            =~= wanted);
    }
    while rest.len() > 0
        invariant
            bag_of(kept@).add(eligible_paths(entry_views(rest@), destination@).to_multiset())
                == wanted,
        decreases rest.len(),
    {
        let ghost before = entry_views(rest@);
        let ghost held = views_of(kept@);
        let last = rest.pop();
        proof {
            assert(entry_views(rest@) =~= before.drop_last());
        }
        match last {
            Some(entry) => {
                if is_eligible(&entry, destination) {
                    kept.push(entry.path);
                    proof {
                        assert(views_of(kept@) =~= held.push(entry@.path));
                        to_multiset_build(held, entry@.path);
                        to_multiset_build(
                            eligible_paths(before.drop_last(), destination@),
                            entry@.path,
                        );
                        assert(bag_of(kept@).add(
                            eligible_paths(entry_views(rest@), destination@).to_multiset(),
                        ) =~= wanted);
                    }
                }
            },
            None => {},
        }
    }
    proof {
        lemma_empty_bag(eligible_paths(entry_views(rest@), destination@));
    }
    let paths = sort_paths(kept);
    proof {
        let found = eligible_paths(all, destination@);
        views_of(paths@).to_multiset_ensures();
        found.to_multiset_ensures();
        assert forall|k: int| 0 <= k < paths@.len() implies is_eligible_path(
            all,
            destination@,
            (#[trigger] paths@[k])@,
        ) by {
            let path = views_of(paths@)[k];
            assert(found.to_multiset().count(path) > 0);
            let at = choose|at: int| 0 <= at < found.len() && found[at] == path;
            lemma_eligible_paths_come_from_entries(all, destination@, at);
        }
    }
    paths
}

/// An entry whose resolved path is the destination is not eligible, whatever
/// else holds of it.
pub proof fn law_destination_is_not_eligible(entry: EntryView, destination: PathView)
    requires
        entry.canonical == Some(destination),
    ensures
        !eligible(entry, destination),
{
}

/// An entry with a directory of version control among its names is not
/// eligible, whatever else holds of it.
pub proof fn law_metadata_is_not_eligible(entry: EntryView, destination: PathView)
    requires
        entry.path.has_name(metadata_directory()),
    ensures
        !eligible(entry, destination),
{
}

/// The globs that are always excluded: files of environment settings,
/// private keys, certificates and key stores.
pub open spec fn security_excludes() -> Seq<Seq<char>> {
    seq![
        "!*.env"@,
        "!*.env.*"@,
        "!*.pem"@,
        "!*.key"@,
        "!id_rsa"@,
        "!id_ed25519"@,
        "!*.p12"@,
        "!*.pfx"@,
    ]
}

/// The glob that excludes what `pattern` matches.
pub open spec fn excluding(pattern: Seq<char>) -> Seq<char> {
    seq!['!'] + pattern
}

/// Whether a line ends in a blank with a backslash before it.
pub open spec fn ends_in_escaped_blank(line: Seq<char>) -> bool {
    line.len() >= 2 && line[line.len() - 2] == '\\' && line.last() == ' '
}

/// A line as the builder of the matcher keeps it: without the white space at
/// its end, unless it ends in an escaped blank.
pub open spec fn cut_line(line: Seq<char>) -> Seq<char> {
    if ends_in_escaped_blank(line) {
        line
    } else {
        trim_end(line)
    }
}

/// Whether the builder of the matcher passes a line over and keeps nothing
/// of it: a comment, which begins with `#`, or a line of which nothing is
/// left when it is cut.
pub open spec fn is_passed_over(line: Seq<char>) -> bool {
    (line.len() > 0 && line[0] == '#') || cut_line(line).len() == 0
}

/// The globs that are handed to the builder of the matcher: those that are
/// always excluded first, then one for each pattern of the user, in the
/// order given.
pub open spec fn handed_globs(user: Seq<Seq<char>>) -> Seq<Seq<char>> {
    security_excludes() + Seq::new(user.len(), |i: int| excluding(user[i]))
}

/// The globs of an exclusion, as the matcher holds them: those that are
/// handed to its builder, each as the builder keeps it.
pub open spec fn exclusion_globs(user: Seq<Seq<char>>) -> Seq<Seq<char>> {
    security_excludes() + Seq::new(user.len(), |i: int| cut_line(excluding(user[i])))
}

/// The glob that excludes a pattern is kept, whatever the pattern: it is no
/// comment, and its first character stays when it is cut.
pub proof fn lemma_exclusion_is_kept(pattern: Seq<char>)
    ensures
        !is_passed_over(excluding(pattern)),
{
    lemma_trim_end_keeps_start(excluding(pattern));
}

/// The globs that are always excluded are kept as they stand.
pub proof fn lemma_security_excludes_are_kept(k: int)
    requires
        0 <= k < security_excludes().len(),
    ensures
        !is_passed_over(security_excludes()[k]),
        cut_line(security_excludes()[k]) == security_excludes()[k],
{
    reveal_strlit("!*.env");
    reveal_strlit("!*.env.*");
    reveal_strlit("!*.pem");
    reveal_strlit("!*.key");
    reveal_strlit("!id_rsa");
    reveal_strlit("!id_ed25519");
    reveal_strlit("!*.p12");
    reveal_strlit("!*.pfx");
    let glob = security_excludes()[k];
    assert(!is_white_space(glob.last()));
    assert(glob[0] == '!');
}

/// The `k`-th of the globs that are always excluded.
fn security_exclude(k: usize) -> (glob: &'static str)
    requires
        k < 8,
    ensures
        glob@ == security_excludes()[k as int],
{
    if k == 0 {
        "!*.env"
    } else if k == 1 {
        "!*.env.*"
    } else if k == 2 {
        "!*.pem"
    } else if k == 3 {
        "!*.key"
    } else if k == 4 {
        "!id_rsa"
    } else if k == 5 {
        "!id_ed25519"
    } else if k == 6 {
        "!*.p12"
    } else {
        "!*.pfx"
    }
}

/// The glob that excludes what `pattern` matches.
pub fn exclude_glob(pattern: &str) -> (glob: String)
    ensures
        glob@ == excluding(pattern@),
{
    let mut glob = String::new();
    push_char(&mut glob, '!');
    glob.append(pattern);
    glob
}

#[verifier::external_type_specification]
#[verifier::external_body]
pub struct ExOverrideBuilder(ignore::overrides::OverrideBuilder);

#[verifier::external_type_specification]
#[verifier::external_body]
pub struct ExOverride(ignore::overrides::Override);

#[verifier::external_type_specification]
#[verifier::external_body]
pub struct ExIgnoreError(ignore::Error);

#[verifier::external_type_specification]
#[verifier::external_body]
pub struct ExPathBuf(std::path::PathBuf);

/// The globs that a builder holds, in the order in which it took them, each
/// as the builder keeps it.
pub uninterp spec fn builder_globs(builder: OverrideBuilder) -> Seq<Seq<char>>;

/// The globs that a matcher was built from.
pub uninterp spec fn override_globs(matcher: Override) -> Seq<Seq<char>>;

/// Whether `OverrideBuilder::add` returns without an error for a line, with
/// the settings that `OverrideBuilder::new` gives a builder: whether the
/// line is passed over or can be parsed as a glob.
pub uninterp spec fn glob_is_valid(glob: Seq<char>) -> bool;

/// Whether `OverrideBuilder::build` can build a matcher from the globs, with
/// the settings that `OverrideBuilder::new` gives a builder.
pub uninterp spec fn globs_can_be_built(globs: Seq<Seq<char>>) -> bool;

/// A builder as `OverrideBuilder::new` made it, with nothing but globs added
/// since. Only `new_builder` makes one.
struct ExclusionBuilder {
    inner: OverrideBuilder,
}

/// `OverrideBuilder::new`. The builder matches relative to `root` and holds
/// no glob.
#[verifier::external_body]
fn new_builder(root: PathBuf) -> (builder: ExclusionBuilder)
    ensures
        builder_globs(builder.inner) == Seq::<Seq<char>>::empty(),
{
    ExclusionBuilder { inner: OverrideBuilder::new(root) }
}

/// `OverrideBuilder::add`. A comment and a line of white space are passed
/// over. Any other line is cut, and if it can then be parsed as a glob, the
/// cut line is kept behind those kept before it. A line that cannot be
/// parsed is refused, and the builder is left as it was.
#[verifier::external_body]
fn add_glob(builder: &mut ExclusionBuilder, glob: &str) -> (r: Result<(), ignore::Error>)
    ensures
        r is Ok <==> glob_is_valid(glob@),
        builder_globs(final(builder).inner) == if r is Ok && !is_passed_over(glob@) {
            builder_globs(old(builder).inner).push(cut_line(glob@))
        } else {
            builder_globs(old(builder).inner)
        },
{
    match builder.inner.add(glob) {
        Ok(_) => Ok(()),
        Err(e) => Err(e),
    }
}

/// `OverrideBuilder::build`. Whether it succeeds depends on the globs that
/// the builder holds alone, and the matcher is built from them.
#[verifier::external_body]
fn build_matcher(builder: &ExclusionBuilder) -> (r: Result<Override, ignore::Error>)
    ensures
        r is Ok <==> globs_can_be_built(builder_globs(builder.inner)),
        r matches Ok(matcher) ==> override_globs(matcher) == builder_globs(builder.inner),
{
    builder.inner.build()
}

/// The text of an error of the `ignore` crate, as the crate words it.
#[verifier::external_body]
fn error_text(e: &ignore::Error) -> String {
    e.to_string()
}

/// Why the exclusion could not be set up. The cause is the error of the
/// crate that parses the globs, in its words.
#[derive(Debug)]
pub enum ExcludeError {
    /// One of the globs that are always excluded was refused.
    SecurityExclude { index: usize, cause: String },
    /// A pattern of the user was refused.
    InvalidPattern { index: usize, cause: String },
    /// The matcher could not be built from the globs.
    Build { cause: String },
}

impl ExcludeError {
    /// What went wrong, in a sentence.
    pub fn message(&self) -> (text: String)
        ensures
            text@ == match *self {
                ExcludeError::SecurityExclude { .. } => "Failed to add security exclude"@,
                ExcludeError::InvalidPattern { .. } => "Invalid exclude pattern"@,
                ExcludeError::Build { .. } => "Failed to build exclude overrides"@,
            },
    {
        match self {
            ExcludeError::SecurityExclude { .. } => "Failed to add security exclude".to_owned(),
            ExcludeError::InvalidPattern { .. } => "Invalid exclude pattern".to_owned(),
            ExcludeError::Build { .. } => "Failed to build exclude overrides".to_owned(),
        }
    }
}

/// Whether every glob that is handed to the builder can be parsed.
pub open spec fn globs_are_valid(user: Seq<Seq<char>>) -> bool {
    forall|k: int|
        0 <= k < handed_globs(user).len() ==> glob_is_valid(#[trigger] handed_globs(user)[k])
}

/// What `build_exclusions` returns for the patterns `user`: the matcher of
/// the globs of the exclusion where each glob that is handed over can be
/// parsed and the matcher can be built; else the error of the first glob
/// that cannot be parsed, or of the building.
pub open spec fn is_exclusion_outcome(
    user: Seq<Seq<char>>,
    r: Result<Override, ExcludeError>,
) -> bool {
    let handed = handed_globs(user);
    match r {
        Ok(matcher) => {
            &&& globs_are_valid(user)
            &&& globs_can_be_built(exclusion_globs(user))
            &&& override_globs(matcher) == exclusion_globs(user)
        },
        Err(ExcludeError::SecurityExclude { index, .. }) => {
            &&& index < security_excludes().len()
            &&& !glob_is_valid(handed[index as int])
            &&& forall|k: int| 0 <= k < index ==> glob_is_valid(#[trigger] handed[k])
        },
        Err(ExcludeError::InvalidPattern { index, .. }) => {
            &&& index < user.len()
            &&& !glob_is_valid(excluding(user[index as int]))
            &&& forall|k: int|
                0 <= k < security_excludes().len() + index ==> glob_is_valid(#[trigger] handed[k])
        },
        Err(ExcludeError::Build { .. }) => {
            &&& globs_are_valid(user)
            &&& !globs_can_be_built(exclusion_globs(user))
        },
    }
}

/// The matcher that keeps out of a walk below `root` what is always
/// excluded and what the user excludes. The globs are handed to the builder
/// in their order, those that are always excluded first; the first that is
/// refused ends the building. The builder cuts the white space from the end
/// of a glob, so a pattern excludes what it excludes without it.
pub fn build_exclusions(root: PathBuf, user: &Vec<String>) -> (r: Result<Override, ExcludeError>)
    ensures
        is_exclusion_outcome(user.deep_view(), r),
{
    let ghost handed = handed_globs(user.deep_view());
    let ghost kept = exclusion_globs(user.deep_view());
    let mut builder = new_builder(root);
    let mut k: usize = 0;
    while k < 8
        invariant
            k <= 8,
            handed == handed_globs(user.deep_view()),
            kept == exclusion_globs(user.deep_view()),
            builder_globs(builder.inner) == kept.take(k as int),
            forall|j: int| 0 <= j < k ==> glob_is_valid(#[trigger] handed[j]),
        decreases 8 - k,
    {
        proof {
            lemma_security_excludes_are_kept(k as int);
        }
        match add_glob(&mut builder, security_exclude(k)) {
            Ok(()) => {},
            Err(e) => {
                return Err(ExcludeError::SecurityExclude { index: k, cause: error_text(&e) });
            },
        }
        assert(kept.take(k + 1) =~= kept.take(k as int).push(kept[k as int]));
        k += 1;
    }
    let mut i: usize = 0;
    while i < user.len()
        invariant
            i <= user.len(),
            handed == handed_globs(user.deep_view()),
            kept == exclusion_globs(user.deep_view()),
            builder_globs(builder.inner) == kept.take(8 + i),
            forall|j: int| 0 <= j < 8 + i ==> glob_is_valid(#[trigger] handed[j]),
        decreases user.len() - i,
    {
        let glob = exclude_glob(user[i].as_str());
        proof {
            lemma_exclusion_is_kept(user[i as int]@);
            assert(handed[8 + i] == glob@);
            assert(kept[8 + i] == cut_line(glob@));
        }
        match add_glob(&mut builder, glob.as_str()) {
            Ok(()) => {},
            Err(e) => {
                return Err(ExcludeError::InvalidPattern { index: i, cause: error_text(&e) });
            },
        }
        assert(kept.take(8 + i + 1) =~= kept.take(8 + i).push(kept[8 + i]));
        i += 1;
    }
    assert(kept.take(8 + user.len()) =~= kept);
    match build_matcher(&builder) {
        Ok(matcher) => Ok(matcher),
        Err(e) => Err(ExcludeError::Build { cause: error_text(&e) }),
    }
}

} // verus!
