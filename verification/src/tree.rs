//! The directory tree as text: one line for the root, one for each
//! directory where a path first leads into it, one for each file.
//!
//! The paths are taken in the order given. With sorted paths every
//! directory is followed by all that lies in it.

use crate::path::{views_of, DiscoveredPath, PathView};
use crate::text::{join_lines, push_char, same_text};
use vstd::prelude::*;
use vstd::string::StringExecFns;

verus! {

/// The indentation of a line `depth` levels below the root.
pub open spec fn indent(depth: nat) -> Seq<char>
    decreases depth,
{
    if depth == 0 {
        Seq::empty()
    } else {
        indent((depth - 1) as nat) + "│   "@
    }
}

/// The first line of the tree.
pub open spec fn root_line(name: Seq<char>) -> Seq<char> {
    "📂 "@ + name + "/"@
}

/// The line of a directory `depth` levels below the root.
pub open spec fn directory_line(depth: nat, name: Seq<char>) -> Seq<char> {
    indent(depth) + "├── "@ + name + "/"@
}

/// The line of a file `depth` levels below the root.
pub open spec fn file_line(depth: nat, name: Seq<char>) -> Seq<char> {
    indent(depth) + "├── "@ + name
}

/// The names that lead from the root to a path; none for a path that does
/// not lie under the root.
pub open spec fn entry_of(path: PathView, root: PathView) -> Seq<Seq<char>> {
    if path.is_under(root) {
        path.below(root)
    } else {
        Seq::empty()
    }
}

/// The entries of the paths, in their order.
pub open spec fn entries_of(paths: Seq<PathView>, root: PathView) -> Seq<Seq<Seq<char>>> {
    Seq::new(paths.len(), |i: int| entry_of(paths[i], root))
}

/// Whether a path with the names `names` leads through the directory
/// `dir`: whether it begins with the names of `dir` and goes on.
pub open spec fn leads_through(names: Seq<Seq<char>>, dir: Seq<Seq<char>>) -> bool {
    dir.len() < names.len() && names.take(dir.len() as int) == dir
}

/// Whether one of the first `i` entries leads through the directory `dir`.
pub open spec fn introduced_before(
    entries: Seq<Seq<Seq<char>>>,
    i: int,
    dir: Seq<Seq<char>>,
) -> bool {
    exists|j: int| 0 <= j < i && #[trigger] leads_through(entries[j], dir)
}

/// Whether entry `i` is the first that leads through the directory `dir`.
/// That is where the directory is given its line.
pub open spec fn introduces(entries: Seq<Seq<Seq<char>>>, i: int, dir: Seq<Seq<char>>) -> bool {
    &&& 0 <= i < entries.len()
    &&& dir.len() > 0
    &&& leads_through(entries[i], dir)
    &&& !introduced_before(entries, i, dir)
}

/// The lines of the outermost `k` directories of entry `i`: one for each
/// that no entry before it leads through.
pub open spec fn directory_lines(entries: Seq<Seq<Seq<char>>>, i: int, k: nat) -> Seq<Seq<char>>
    decreases k,
{
    if k == 0 {
        Seq::empty()
    } else {
        let outer = directory_lines(entries, i, (k - 1) as nat);
        if introduced_before(entries, i, entries[i].take(k as int)) {
            outer
        } else {
            outer.push(directory_line((k - 1) as nat, entries[i][k - 1]))
        }
    }
}

/// The lines of entry `i`: those of its directories, then that of the file.
/// An entry without names has no line.
pub open spec fn entry_lines(entries: Seq<Seq<Seq<char>>>, i: int) -> Seq<Seq<char>> {
    let names = entries[i];
    if names.len() == 0 {
        Seq::empty()
    } else {
        directory_lines(entries, i, (names.len() - 1) as nat).push(
            file_line((names.len() - 1) as nat, names.last()),
        )
    }
}

/// The lines of the first `n` entries.
pub open spec fn tree_lines(entries: Seq<Seq<Seq<char>>>, n: nat) -> Seq<Seq<char>>
    decreases n,
{
    if n == 0 {
        Seq::empty()
    } else {
        tree_lines(entries, (n - 1) as nat) + entry_lines(entries, n - 1)
    }
}

/// The tree of the paths under `root`, as one text.
pub open spec fn tree_text(paths: Seq<PathView>, root: PathView) -> Seq<char> {
    join_lines(
        seq![root_line(root.file_name())] + tree_lines(entries_of(paths, root), paths.len()),
    )
}

/// A directory that an entry leads through is introduced, and by one entry
/// only: it has its line once, with the first entry that leads through it.
pub proof fn law_directory_is_introduced_once(
    entries: Seq<Seq<Seq<char>>>,
    dir: Seq<Seq<char>>,
    j: int,
)
    requires
        0 <= j < entries.len(),
        dir.len() > 0,
        leads_through(entries[j], dir),
    ensures
        exists|i: int| 0 <= i <= j && introduces(entries, i, dir),
        forall|a: int, b: int|
            introduces(entries, a, dir) && introduces(entries, b, dir) ==> a == b,
    decreases j,
{
    if introduced_before(entries, j, dir) {
        let earlier = choose|e: int| 0 <= e < j && #[trigger] leads_through(entries[e], dir);
        law_directory_is_introduced_once(entries, dir, earlier);
    } else {
        assert(introduces(entries, j, dir));
    }
    assert forall|a: int, b: int|
        introduces(entries, a, dir) && introduces(entries, b, dir) implies a == b by {
        if a < b {
            assert(leads_through(entries[a], dir));
        }
        if b < a {
            assert(leads_through(entries[b], dir));
        }
    }
}

/// How many directories a path with these names leads through.
pub open spec fn depth_of(names: Seq<Seq<char>>) -> nat {
    if names.len() == 0 {
        0
    } else {
        (names.len() - 1) as nat
    }
}

/// A set of directories, and with them the outermost `k` directories of a
/// path with the names `names`.
pub open spec fn with_directories(
    set: Set<Seq<Seq<char>>>,
    names: Seq<Seq<char>>,
    k: nat,
) -> Set<Seq<Seq<char>>>
    decreases k,
{
    if k == 0 {
        set
    } else {
        with_directories(set, names, (k - 1) as nat).insert(names.take(k as int))
    }
}

/// The directories that the first `n` entries lead through.
pub open spec fn directories(entries: Seq<Seq<Seq<char>>>, n: nat) -> Set<Seq<Seq<char>>>
    decreases n,
{
    if n == 0 {
        Set::empty()
    } else {
        with_directories(
            directories(entries, (n - 1) as nat),
            entries[n - 1],
            depth_of(entries[n - 1]),
        )
    }
}

/// How many of the first `n` entries have names, and so a line of their own.
pub open spec fn file_count(entries: Seq<Seq<Seq<char>>>, n: nat) -> nat
    decreases n,
{
    if n == 0 {
        0
    } else if entries[n - 1].len() == 0 {
        file_count(entries, (n - 1) as nat)
    } else {
        file_count(entries, (n - 1) as nat) + 1
    }
}

/// What a set with the outermost `k` directories of a path holds: what it
/// held, and those directories.
proof fn lemma_with_directories(
    set: Set<Seq<Seq<char>>>,
    names: Seq<Seq<char>>,
    k: nat,
    dir: Seq<Seq<char>>,
)
    requires
        set.finite(),
    ensures
        with_directories(set, names, k).finite(),
        with_directories(set, names, k).contains(dir) <==> set.contains(dir) || exists|m: int|
            0 < m <= k && dir == #[trigger] names.take(m),
    decreases k,
{
    if k > 0 {
        lemma_with_directories(set, names, (k - 1) as nat, dir);
        if dir == names.take(k as int) {
            assert(0 < k <= k && dir == names.take(k as int));
        }
    }
}

/// The directories of the first `n` entries are those that one of them
/// leads through, and there are finitely many.
pub proof fn lemma_directories(entries: Seq<Seq<Seq<char>>>, n: nat, dir: Seq<Seq<char>>)
    requires
        n <= entries.len(),
    ensures
        directories(entries, n).finite(),
        directories(entries, n).contains(dir) <==> dir.len() > 0 && introduced_before(
            entries,
            n as int,
            dir,
        ),
    decreases n,
{
    if n > 0 {
        let before = directories(entries, (n - 1) as nat);
        let names = entries[n - 1];
        lemma_directories(entries, (n - 1) as nat, dir);
        lemma_with_directories(before, names, depth_of(names), dir);
        if directories(entries, n).contains(dir) {
            if !before.contains(dir) {
                let m = choose|m: int| 0 < m <= depth_of(names) && dir == #[trigger] names.take(m);
                assert(leads_through(entries[n - 1], dir));
            } else {
                let j = choose|j: int| 0 <= j < n - 1 && #[trigger] leads_through(entries[j], dir);
                assert(leads_through(entries[j], dir));
            }
        }
        if dir.len() > 0 && introduced_before(entries, n as int, dir) {
            let j = choose|j: int| 0 <= j < n && #[trigger] leads_through(entries[j], dir);
            if j < n - 1 {
                assert(introduced_before(entries, n - 1, dir));
            } else {
                assert(dir == names.take(dir.len() as int));
            }
        }
    }
}

/// Each line of a directory of entry `i` stands for one directory more.
proof fn lemma_directory_lines_count(entries: Seq<Seq<Seq<char>>>, i: int, k: nat)
    requires
        0 <= i < entries.len(),
        k <= depth_of(entries[i]),
    ensures
        with_directories(directories(entries, i as nat), entries[i], k).finite(),
        with_directories(directories(entries, i as nat), entries[i], k).len() == directories(
            entries,
            i as nat,
        ).len() + directory_lines(entries, i, k).len(),
    decreases k,
{
    let before = directories(entries, i as nat);
    let names = entries[i];
    lemma_directories(entries, i as nat, names.take(k as int));
    if k > 0 {
        let dir = names.take(k as int);
        let outer = with_directories(before, names, (k - 1) as nat);
        lemma_directory_lines_count(entries, i, (k - 1) as nat);
        lemma_with_directories(before, names, (k - 1) as nat, dir);
        if outer.contains(dir) && !before.contains(dir) {
            let m = choose|m: int| 0 < m <= k - 1 && dir == #[trigger] names.take(m);
            assert(names.take(m).len() == m);
        }
        assert(outer.contains(dir) <==> introduced_before(entries, i, dir));
    }
}

/// The tree has a line for each entry that has names, and a line for each
/// directory that an entry leads through, and no other: each directory has
/// one line, however many entries lead through it.
pub proof fn law_tree_has_a_line_for_each(entries: Seq<Seq<Seq<char>>>, n: nat)
    requires
        n <= entries.len(),
    ensures
        directories(entries, n).finite(),
        tree_lines(entries, n).len() == file_count(entries, n) + directories(entries, n).len(),
    decreases n,
{
    if n > 0 {
        law_tree_has_a_line_for_each(entries, (n - 1) as nat);
        lemma_directory_lines_count(entries, n - 1, depth_of(entries[n - 1]));
    } else {
        lemma_directories(entries, 0, Seq::empty());
    }
}

/// Where every path lies below the root, the tree has the line of the root,
/// a line for each path, and a line for each directory that a path leads
/// through.
pub proof fn law_tree_of_paths_below_the_root(paths: Seq<PathView>, root: PathView)
    requires
        forall|i: int|
            0 <= i < paths.len() ==> (#[trigger] paths[i]).is_under(root) && paths[i].names.len()
                > root.names.len(),
    ensures
        directories(entries_of(paths, root), paths.len()).finite(),
        (seq![root_line(root.file_name())] + tree_lines(
            entries_of(paths, root),
            paths.len(),
        )).len() == 1 + paths.len() + directories(entries_of(paths, root), paths.len()).len(),
{
    let entries = entries_of(paths, root);
    law_tree_has_a_line_for_each(entries, paths.len());
    lemma_every_entry_counts(entries, paths.len());
}

/// Where each of the first `n` entries has names, each counts.
proof fn lemma_every_entry_counts(entries: Seq<Seq<Seq<char>>>, n: nat)
    requires
        n <= entries.len(),
        forall|i: int| 0 <= i < n ==> (#[trigger] entries[i]).len() > 0,
    ensures
        file_count(entries, n) == n,
    decreases n,
{
    if n > 0 {
        lemma_every_entry_counts(entries, (n - 1) as nat);
    }
}

/// The directory for which the `s`-th line of a directory was written: the
/// lines are remembered by the entry and the number of its names that make
/// up the directory.
spec fn seen_directory(
    entries: Seq<Seq<Seq<char>>>,
    seen: Seq<(usize, usize)>,
    s: int,
) -> Seq<Seq<char>> {
    entries[seen[s].0 as int].take(seen[s].1 as int)
}

/// Whether a line was written for the directory `dir`.
spec fn has_seen(
    entries: Seq<Seq<Seq<char>>>,
    seen: Seq<(usize, usize)>,
    dir: Seq<Seq<char>>,
) -> bool {
    exists|s: int| 0 <= s < seen.len() && #[trigger] seen_directory(entries, seen, s) == dir
}

/// What is remembered of the lines written so far: each stands for a
/// directory of an entry up to `i`, of entry `i` itself only among its
/// outermost `k`; and a line was written for every directory of the entries
/// before `i` and for the outermost `k` of entry `i`.
spec fn seen_is_complete(
    entries: Seq<Seq<Seq<char>>>,
    seen: Seq<(usize, usize)>,
    i: int,
    k: int,
) -> bool {
    &&& forall|s: int|
        0 <= s < seen.len() ==> {
            &&& (#[trigger] seen[s]).0 <= i
            &&& seen[s].0 < entries.len()
            &&& 0 < seen[s].1 < entries[seen[s].0 as int].len()
            &&& seen[s].0 == i ==> seen[s].1 <= k
        }
    &&& forall|j: int, m: int|
        0 <= j < i && 0 < m < entries[j].len() ==> has_seen(
            entries,
            seen,
            #[trigger] entries[j].take(m),
        )
    &&& forall|m: int|
        0 < m <= k && i < entries.len() && m < entries[i].len() ==> has_seen(
            entries,
            seen,
            #[trigger] entries[i].take(m),
        )
}

/// What was seen stays seen when another line is remembered.
proof fn lemma_seen_stays(
    entries: Seq<Seq<Seq<char>>>,
    seen: Seq<(usize, usize)>,
    next: (usize, usize),
    dir: Seq<Seq<char>>,
)
    requires
        has_seen(entries, seen, dir),
    ensures
        has_seen(entries, seen.push(next), dir),
{
    let s = choose|s: int|
        0 <= s < seen.len() && #[trigger] seen_directory(entries, seen, s) == dir;
    assert(seen_directory(entries, seen.push(next), s) == dir);
}

/// A directory that an entry before `i` leads through was given a line.
proof fn lemma_introduced_was_seen(
    entries: Seq<Seq<Seq<char>>>,
    seen: Seq<(usize, usize)>,
    i: int,
    k: int,
    dir: Seq<Seq<char>>,
)
    requires
        seen_is_complete(entries, seen, i, k),
        dir.len() > 0,
        introduced_before(entries, i, dir),
    ensures
        has_seen(entries, seen, dir),
{
    let j = choose|j: int| 0 <= j < i && #[trigger] leads_through(entries[j], dir);
    assert(has_seen(entries, seen, entries[j].take(dir.len() as int)));
}

/// Remembering the line of the next directory of entry `i` keeps what is
/// remembered complete.
proof fn lemma_seen_with_directory(
    entries: Seq<Seq<Seq<char>>>,
    seen: Seq<(usize, usize)>,
    i: usize,
    k: usize,
)
    requires
        seen_is_complete(entries, seen, i as int, k as int),
        i < entries.len(),
        k + 1 < entries[i as int].len(),
        k + 1 <= usize::MAX,
    ensures
        seen_is_complete(entries, seen.push((i, (k + 1) as usize)), i as int, k + 1),
{
    let next = (i, (k + 1) as usize);
    let more = seen.push(next);
    assert forall|j: int, m: int| 0 <= j < i && 0 < m < entries[j].len() implies has_seen(
        entries,
        more,
        #[trigger] entries[j].take(m),
    ) by {
        lemma_seen_stays(entries, seen, next, entries[j].take(m));
    }
    assert forall|m: int| 0 < m <= k + 1 && m < entries[i as int].len() implies has_seen(
        entries,
        more,
        #[trigger] entries[i as int].take(m),
    ) by {
        if m <= k {
            lemma_seen_stays(entries, seen, next, entries[i as int].take(m));
        } else {
            assert(seen_directory(entries, more, seen.len() as int) == entries[i as int].take(m));
        }
    }
}

/// Whether `a` and `b` hold the same names from `from` up to `to`.
fn same_names_between(a: &Vec<String>, b: &Vec<String>, from: usize, to: usize) -> (r: bool)
    requires
        from <= to <= a.len(),
        to <= b.len(),
    ensures
        r == (a.deep_view().subrange(from as int, to as int) == b.deep_view().subrange(
            from as int,
            to as int,
        )),
{
    let ghost x = a.deep_view().subrange(from as int, to as int);
    let ghost y = b.deep_view().subrange(from as int, to as int);
    let mut i: usize = from;
    while i < to
        invariant
            from <= i <= to <= a.len(),
            to <= b.len(),
            x == a.deep_view().subrange(from as int, to as int),
            y == b.deep_view().subrange(from as int, to as int),
            forall|j: int| 0 <= j < i - from ==> x[j] == y[j],
        decreases to - i,
    {
        if !same_text(a[i].as_str(), b[i].as_str()) {
            assert(x[i - from] != y[i - from]);
            return false;
        }
        i += 1;
    }
    assert(x =~= y);
    true
}

/// Appends the indentation of `depth` levels.
fn push_indent(out: &mut String, depth: usize)
    ensures
        final(out)@ == old(out)@ + indent(depth as nat),
{
    let mut d: usize = 0;
    while d < depth
        invariant
            d <= depth,
            out@ == old(out)@ + indent(d as nat),
        decreases depth - d,
    {
        out.append("│   ");
        d += 1;
    }
}

/// Appends a line feed and the line of a directory or of a file.
fn push_line(out: &mut String, depth: usize, name: &str, is_directory: bool)
    ensures
        final(out)@ == old(out)@.push('\n') + if is_directory {
            directory_line(depth as nat, name@)
        } else {
            file_line(depth as nat, name@)
        },
{
    push_char(out, '\n');
    push_indent(out, depth);
    out.append("├── ");
    out.append(name);
    if is_directory {
        out.append("/");
    }
}

/// The first `m` names of a path below the root, as they stand in the path.
proof fn lemma_entry_prefix(path: DiscoveredPath, root: DiscoveredPath, m: int)
    requires
        path@.is_under(root@),
        0 <= m <= path@.below(root@).len(),
    ensures
        entry_of(path@, root@).take(m) == path.names.deep_view().subrange(
            root.names.len() as int,
            root.names.len() + m,
        ),
{
    assert(entry_of(path@, root@).take(m) =~= path.names.deep_view().subrange(
        root.names.len() as int,
        root.names.len() + m,
    ));
}

/// Whether an entry before entry `i` leads through the outermost `m`
/// directories of entry `i`. The entry just before is asked first: among
/// sorted paths it is the one that tells.
fn is_introduced(
    paths: &Vec<DiscoveredPath>,
    root: &DiscoveredPath,
    seen: &Vec<(usize, usize)>,
    previous: Option<usize>,
    i: usize,
    m: usize,
) -> (r: bool)
    requires
        i < paths.len(),
        paths[i as int]@.is_under(root@),
        0 < m < entries_of(views_of(paths@), root@)[i as int].len(),
        seen_is_complete(entries_of(views_of(paths@), root@), seen@, i as int, m - 1),
        previous matches Some(p) ==> p < i && paths[p as int]@.is_under(root@),
    ensures
        r == introduced_before(
            entries_of(views_of(paths@), root@),
            i as int,
            entries_of(views_of(paths@), root@)[i as int].take(m as int),
        ),
{
    let ghost entries = entries_of(views_of(paths@), root@);
    let ghost dir = entries[i as int].take(m as int);
    let base = root.names.len();
    let names = &paths[i].names;
    proof {
        lemma_entry_prefix(paths[i as int], *root, m as int);
    }
    match previous {
        Some(p) => {
            let before = &paths[p].names;
            if before.len() - base > m && same_names_between(before, names, base, base + m) {
                proof {
                    lemma_entry_prefix(paths[p as int], *root, m as int);
                    assert(leads_through(entries[p as int], dir));
                }
                return true;
            }
        },
        None => {},
    }
    let mut s: usize = 0;
    while s < seen.len()
        invariant
            s <= seen.len(),
            i < paths.len(),
            entries == entries_of(views_of(paths@), root@),
            dir == entries[i as int].take(m as int),
            dir == names.deep_view().subrange(base as int, base + m),
            base == root.names.len(),
            names == &paths[i as int].names,
            0 < m < entries[i as int].len(),
            base + m < names.len(),
            seen_is_complete(entries, seen@, i as int, m - 1),
            forall|t: int| 0 <= t < s ==> #[trigger] seen_directory(entries, seen@, t) != dir,
        decreases seen.len() - s,
    {
        let (a, len) = seen[s];
        proof {
            lemma_entry_prefix(paths[a as int], *root, len as int);
        }
        if len == m && same_names_between(&paths[a].names, names, base, base + m) {
            assert(leads_through(entries[a as int], dir));
            return true;
        }
        proof {
            if len != m {
                assert(seen_directory(entries, seen@, s as int).len() != dir.len());
            }
        }
        s += 1;
    }
    proof {
        if introduced_before(entries, i as int, dir) {
            lemma_introduced_was_seen(entries, seen@, i as int, m - 1, dir);
        }
    }
    false
}

/// The tree of the files at `paths`, as far as they lie under `root`: a line
/// for the root, then for each path in turn a line for each of its
/// directories that no path before it led through, and a line for the file.
/// Each line but the first is indented by its depth below the root. The
/// lines are joined by line feeds.
pub fn generate_tree(paths: &Vec<DiscoveredPath>, root: &DiscoveredPath) -> (tree: String)
    ensures
        tree@ == tree_text(views_of(paths@), root@),
{
    let ghost entries = entries_of(views_of(paths@), root@);
    let mut out = String::new();
    out.append("📂 ");
    out.append(root.file_name().as_str());
    out.append("/");
    let ghost first = root_line(root@.file_name());
    let base = root.names.len();
    let mut seen: Vec<(usize, usize)> = Vec::new();
    let mut previous: Option<usize> = None;
    let mut i: usize = 0;
    while i < paths.len()
        invariant
            i <= paths.len(),
            entries == entries_of(views_of(paths@), root@),
            base == root.names.len(),
            first == root_line(root@.file_name()),
            out@ == join_lines(seq![first] + tree_lines(entries, i as nat)),
            seen_is_complete(entries, seen@, i as int, 0),
            previous matches Some(p) ==> p < i && paths[p as int]@.is_under(root@),
        decreases paths.len() - i,
    {
        let path = &paths[i];
        let ghost names = entries[i as int];
        let ghost done = seq![first] + tree_lines(entries, i as nat);
        if path.is_under(root) && path.names.len() > base {
            let depth = path.names.len() - base - 1;
            let mut k: usize = 0;
            while k < depth
                invariant
                    k <= depth,
                    i < paths.len(),
                    path == &paths[i as int],
                    path@.is_under(root@),
                    entries == entries_of(views_of(paths@), root@),
                    names == entries[i as int],
                    names == path@.below(root@),
                    base == root.names.len(),
                    path.names.len() == base + depth + 1,
                    done.len() > 0,
                    out@ == join_lines(done + directory_lines(entries, i as int, k as nat)),
                    seen_is_complete(entries, seen@, i as int, k as int),
                    previous matches Some(p) ==> p < i && paths[p as int]@.is_under(root@),
                decreases depth - k,
            {
                let ghost lines = done + directory_lines(entries, i as int, k as nat);
                if !is_introduced(paths, root, &seen, previous, i, k + 1) {
                    proof {
                        lemma_seen_with_directory(entries, seen@, i, k);
                    }
                    seen.push((i, k + 1));
                    push_line(&mut out, k, path.names[base + k].as_str(), true);
                    proof {
                        let line = directory_line(k as nat, names[k as int]);
                        assert(lines.push(line).drop_last() =~= lines);
                        assert(done + directory_lines(entries, i as int, (k + 1) as nat)
                            =~= lines.push(line));
                    }
                } else {
                    proof {
                        lemma_introduced_was_seen(
                            entries,
                            seen@,
                            i as int,
                            k as int,
                            names.take(k + 1),
                        );
                    }
                }
                k += 1;
            }
            push_line(&mut out, depth, path.names[base + depth].as_str(), false);
            proof {
                let lines = done + directory_lines(entries, i as int, depth as nat);
                let line = file_line(depth as nat, names.last());
                assert(lines.push(line).drop_last() =~= lines);
                assert(seq![first] + tree_lines(entries, (i + 1) as nat) =~= done + entry_lines(
                    entries,
                    i as int,
                ));
            }
            previous = Some(i);
        }
        i += 1;
    }
    out
}

} // verus!
