//! Paths as plain values: an anchor and the names below it.
//!
//! The library never touches the file system. A path reaches it as the text
//! of what stands before the first name (empty for a relative path, the root
//! directory for an absolute one) and the list of its names.

use crate::text::{joined, push_joined, same_text};
use vstd::prelude::*;

verus! {

/// A path of the file system: that of a file that the walk came upon, of
/// the root of the scan, or of the destination of the output.
#[derive(Debug, Clone)]
pub struct DiscoveredPath {
    /// What stands before the names: empty for a relative path, the root
    /// directory, with the drive where there is one, for an absolute path.
    pub anchor: String,
    /// The names from the anchor down to the file.
    pub names: Vec<String>,
}

/// A path as contracts see it.
#[verifier::ext_equal]
pub struct PathView {
    pub anchor: Seq<char>,
    pub names: Seq<Seq<char>>,
}

impl View for DiscoveredPath {
    type V = PathView;

    open spec fn view(&self) -> PathView {
        PathView { anchor: self.anchor@, names: self.names.deep_view() }
    }
}

impl PathView {
    /// The last name, or the empty text where the path has no name or ends
    /// in a step to the directory itself or to its parent.
    pub open spec fn file_name(self) -> Seq<char> {
        if self.names.len() > 0 && self.names.last() != "."@ && self.names.last() != ".."@ {
            self.names.last()
        } else {
            Seq::empty()
        }
    }

    /// Whether the path lies at or below `root`: same anchor, and the names
    /// of `root` are the first names of the path.
    pub open spec fn is_under(self, root: PathView) -> bool {
        &&& self.anchor == root.anchor
        &&& root.names.len() <= self.names.len()
        &&& self.names.take(root.names.len() as int) == root.names
    }

    /// The names that lead from `root` to the path.
    pub open spec fn below(self, root: PathView) -> Seq<Seq<char>> {
        self.names.skip(root.names.len() as int)
    }

    /// The path written out, its names separated by `/`.
    pub open spec fn text(self) -> Seq<char> {
        self.anchor + joined(self.names, '/')
    }

    /// The path written relative to `root`, or in full where it does not lie
    /// under `root`.
    pub open spec fn relative_text(self, root: PathView) -> Seq<char> {
        if self.is_under(root) {
            joined(self.below(root), '/')
        } else {
            self.text()
        }
    }

    /// Whether one of the names is `name`.
    pub open spec fn has_name(self, name: Seq<char>) -> bool {
        exists|i: int| 0 <= i < self.names.len() && self.names[i] == name
    }
}

/// The views of the paths, in their order.
pub open spec fn views_of(paths: Seq<DiscoveredPath>) -> Seq<PathView> {
    Seq::new(paths.len(), |i: int| paths[i]@)
}

/// Whether the first `n` names of `a` are those of `b`.
fn same_names(a: &Vec<String>, b: &Vec<String>, n: usize) -> (r: bool)
    requires
        n <= a.len(),
        n <= b.len(),
    ensures
        r == (a.deep_view().take(n as int) == b.deep_view().take(n as int)),
{
    let ghost x = a.deep_view().take(n as int);
    let ghost y = b.deep_view().take(n as int);
    let mut i: usize = 0;
    while i < n
        invariant
            i <= n <= a.len(),
            n <= b.len(),
            x == a.deep_view().take(n as int),
            y == b.deep_view().take(n as int),
            forall|j: int| 0 <= j < i ==> x[j] == y[j],
        decreases n - i,
    {
        if !same_text(a[i].as_str(), b[i].as_str()) {
            assert(x[i as int] != y[i as int]);
            return false;
        }
        i += 1;
    }
    assert(x =~= y);
    true
}

impl DiscoveredPath {
    /// The name of the file or directory that the path leads to.
    pub fn file_name(&self) -> (name: String)
        ensures
            name@ == self@.file_name(),
    {
        let n = self.names.len();
        if n > 0 && !same_text(self.names[n - 1].as_str(), ".") && !same_text(
            self.names[n - 1].as_str(),
            "..",
        ) {
            self.names[n - 1].clone()
        } else {
            String::new()
        }
    }

    /// Whether the path lies at or below `root`.
    pub fn is_under(&self, root: &DiscoveredPath) -> (r: bool)
        ensures
            r == self@.is_under(root@),
    {
        if !same_text(self.anchor.as_str(), root.anchor.as_str()) {
            return false;
        }
        if root.names.len() > self.names.len() {
            return false;
        }
        let r = same_names(&self.names, &root.names, root.names.len());
        assert(root.names.deep_view().take(root.names.len() as int) =~= root.names.deep_view());
        r
    }

    /// Whether both paths have the same anchor and the same names.
    pub fn same_as(&self, other: &DiscoveredPath) -> (r: bool)
        ensures
            r == (self@ == other@),
    {
        if !same_text(self.anchor.as_str(), other.anchor.as_str()) {
            return false;
        }
        if self.names.len() != other.names.len() {
            assert(self@.names.len() != other@.names.len());
            return false;
        }
        let r = same_names(&self.names, &other.names, self.names.len());
        assert(self.names.deep_view().take(self.names.len() as int) =~= self.names.deep_view());
        assert(other.names.deep_view().take(other.names.len() as int) =~= other.names.deep_view());
        r
    }

    /// Whether one of the names of the path is `name`.
    pub fn has_name(&self, name: &str) -> (r: bool)
        ensures
            r == self@.has_name(name@),
    {
        let mut i: usize = 0;
        while i < self.names.len()
            invariant
                i <= self.names.len(),
                forall|j: int| 0 <= j < i ==> self.names[j]@ != name@,
            decreases self.names.len() - i,
        {
            if same_text(self.names[i].as_str(), name) {
                assert(self@.names[i as int] == name@);
                return true;
            }
            i += 1;
        }
        false
    }

    /// The path written out, its names separated by `/`.
    pub fn text(&self) -> (out: String)
        ensures
            out@ == self@.text(),
    {
        let mut out = self.anchor.clone();
        push_joined(&mut out, &self.names, 0, self.names.len(), '/');
        assert(self.names.deep_view().subrange(0, self.names.len() as int)
            =~= self.names.deep_view());
        out
    }

    /// The path as it is shown beside its content: relative to `root`, or in
    /// full where it does not lie under `root`.
    pub fn relative_text(&self, root: &DiscoveredPath) -> (out: String)
        ensures
            out@ == self@.relative_text(root@),
    {
        if self.is_under(root) {
            let mut out = String::new();
            push_joined(&mut out, &self.names, root.names.len(), self.names.len(), '/');
            assert(self.names.deep_view().subrange(
                root.names.len() as int,
                self.names.len() as int,
            ) =~= self@.below(root@));
            assert(Seq::<char>::empty() + joined(self@.below(root@), '/') =~= joined(
                self@.below(root@),
                '/',
            ));
            out
        } else {
            self.text()
        }
    }
}

} // verus!
