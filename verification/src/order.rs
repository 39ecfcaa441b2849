//! The order of paths: by anchor, then name by name, each text by its
//! bytes. It is the order in which the files appear in the output.

use crate::path::{DiscoveredPath, PathView};
use crate::text::same_text;
use vstd::prelude::*;
use vstd::relations::{sorted_by, total_ordering};
use vstd::seq_lib::lemma_sorted_unique;
use vstd::utf8::{encode_utf8, encode_utf8_decode_utf8};

verus! {

/// Whether `a` stands before `b`, or is `b`, in the order of byte strings:
/// the first byte in which they differ decides, and a string stands before
/// every longer one that begins with it.
pub open spec fn bytes_le(a: Seq<u8>, b: Seq<u8>) -> bool
    decreases a.len(),
{
    if a.len() == 0 {
        true
    } else if b.len() == 0 {
        false
    } else if a[0] != b[0] {
        a[0] < b[0]
    } else {
        bytes_le(a.drop_first(), b.drop_first())
    }
}

/// The order of texts: that of their bytes in UTF-8.
pub open spec fn text_le(a: Seq<char>, b: Seq<char>) -> bool {
    bytes_le(encode_utf8(a), encode_utf8(b))
}

/// The order of lists of names: the first name in which they differ
/// decides, and a list stands before every longer one that begins with it.
pub open spec fn names_le(a: Seq<Seq<char>>, b: Seq<Seq<char>>) -> bool
    decreases a.len(),
{
    if a.len() == 0 {
        true
    } else if b.len() == 0 {
        false
    } else if a[0] != b[0] {
        text_le(a[0], b[0])
    } else {
        names_le(a.drop_first(), b.drop_first())
    }
}

/// The order of paths: by anchor, and among paths of one anchor by names.
pub open spec fn path_le(a: PathView, b: PathView) -> bool {
    if a.anchor != b.anchor {
        text_le(a.anchor, b.anchor)
    } else {
        names_le(a.names, b.names)
    }
}

/// Whether each path stands before, or is, every path behind it.
pub open spec fn sorted(paths: Seq<PathView>) -> bool {
    forall|i: int, j: int| 0 <= i < j < paths.len() ==> path_le(paths[i], paths[j])
}

/// Of two byte strings one stands before the other, or they are the same.
pub proof fn lemma_bytes_le_total(a: Seq<u8>, b: Seq<u8>)
    ensures
        bytes_le(a, b) || bytes_le(b, a),
    decreases a.len(),
{
    if a.len() > 0 && b.len() > 0 && a[0] == b[0] {
        lemma_bytes_le_total(a.drop_first(), b.drop_first());
    }
}

/// Byte strings that stand before each other are the same.
pub proof fn lemma_bytes_le_antisymmetric(a: Seq<u8>, b: Seq<u8>)
    requires
        bytes_le(a, b),
        bytes_le(b, a),
    ensures
        a == b,
    decreases a.len(),
{
    if a.len() > 0 && b.len() > 0 {
        lemma_bytes_le_antisymmetric(a.drop_first(), b.drop_first());
        assert(a =~= seq![a[0]] + a.drop_first());
        assert(b =~= seq![b[0]] + b.drop_first());
    }
}

/// What stands before a byte string stands before all that it stands before.
pub proof fn lemma_bytes_le_transitive(a: Seq<u8>, b: Seq<u8>, c: Seq<u8>)
    requires
        bytes_le(a, b),
        bytes_le(b, c),
    ensures
        bytes_le(a, c),
    decreases a.len(),
{
    if a.len() > 0 && b.len() > 0 && c.len() > 0 && a[0] == b[0] && b[0] == c[0] {
        lemma_bytes_le_transitive(a.drop_first(), b.drop_first(), c.drop_first());
    }
}

/// Texts that stand before each other are the same: no two texts have the
/// same bytes.
pub proof fn lemma_text_le_antisymmetric(a: Seq<char>, b: Seq<char>)
    requires
        text_le(a, b),
        text_le(b, a),
    ensures
        a == b,
{
    lemma_bytes_le_antisymmetric(encode_utf8(a), encode_utf8(b));
    encode_utf8_decode_utf8(a);
    encode_utf8_decode_utf8(b);
}

/// Of two lists of names one stands before the other, or they are the same.
pub proof fn lemma_names_le_total(a: Seq<Seq<char>>, b: Seq<Seq<char>>)
    ensures
        names_le(a, b) || names_le(b, a),
    decreases a.len(),
{
    if a.len() > 0 && b.len() > 0 {
        if a[0] == b[0] {
            lemma_names_le_total(a.drop_first(), b.drop_first());
        } else {
            lemma_bytes_le_total(encode_utf8(a[0]), encode_utf8(b[0]));
        }
    }
}

/// What stands before a list of names stands before all that it stands
/// before.
pub proof fn lemma_names_le_transitive(a: Seq<Seq<char>>, b: Seq<Seq<char>>, c: Seq<Seq<char>>)
    requires
        names_le(a, b),
        names_le(b, c),
    ensures
        names_le(a, c),
    decreases a.len(),
{
    if a.len() > 0 && b.len() > 0 && c.len() > 0 {
        if a[0] == b[0] && b[0] == c[0] {
            lemma_names_le_transitive(a.drop_first(), b.drop_first(), c.drop_first());
        } else if a[0] != b[0] && b[0] != c[0] {
            lemma_bytes_le_transitive(encode_utf8(a[0]), encode_utf8(b[0]), encode_utf8(c[0]));
            if a[0] == c[0] {
                lemma_text_le_antisymmetric(a[0], b[0]);
            }
        }
    }
}

/// Lists of names that stand before each other are the same.
pub proof fn lemma_names_le_antisymmetric(a: Seq<Seq<char>>, b: Seq<Seq<char>>)
    requires
        names_le(a, b),
        names_le(b, a),
    ensures
        a == b,
    decreases a.len(),
{
    if a.len() > 0 && b.len() > 0 {
        if a[0] != b[0] {
            lemma_text_le_antisymmetric(a[0], b[0]);
        }
        lemma_names_le_antisymmetric(a.drop_first(), b.drop_first());
        assert(a =~= seq![a[0]] + a.drop_first());
        assert(b =~= seq![b[0]] + b.drop_first());
    }
}

/// Of two paths one stands before the other, or they are the same.
pub proof fn lemma_path_le_total(a: PathView, b: PathView)
    ensures
        path_le(a, b) || path_le(b, a),
{
    if a.anchor != b.anchor {
        lemma_bytes_le_total(encode_utf8(a.anchor), encode_utf8(b.anchor));
    } else {
        lemma_names_le_total(a.names, b.names);
    }
}

/// What stands before a path stands before all that the path stands before.
pub proof fn lemma_path_le_transitive(a: PathView, b: PathView, c: PathView)
    requires
        path_le(a, b),
        path_le(b, c),
    ensures
        path_le(a, c),
{
    if a.anchor == b.anchor && b.anchor == c.anchor {
        lemma_names_le_transitive(a.names, b.names, c.names);
    } else if a.anchor != b.anchor && b.anchor != c.anchor {
        lemma_bytes_le_transitive(
            encode_utf8(a.anchor),
            encode_utf8(b.anchor),
            encode_utf8(c.anchor),
        );
        if a.anchor == c.anchor {
            lemma_text_le_antisymmetric(a.anchor, b.anchor);
        }
    }
}

/// Paths that stand before each other are the same.
pub proof fn lemma_path_le_antisymmetric(a: PathView, b: PathView)
    requires
        path_le(a, b),
        path_le(b, a),
    ensures
        a == b,
{
    if a.anchor != b.anchor {
        lemma_text_le_antisymmetric(a.anchor, b.anchor);
    } else {
        lemma_names_le_antisymmetric(a.names, b.names);
    }
}

/// The order of paths is total: every path is itself, two paths that stand
/// before each other are one path, what stands before a path stands before
/// all that the path stands before, and of two paths one stands before the
/// other.
pub proof fn law_path_order_is_total()
    ensures
        total_ordering(|a: PathView, b: PathView| path_le(a, b)),
{
    let le = |a: PathView, b: PathView| path_le(a, b);
    assert forall|a: PathView| #[trigger] le(a, a) by {
        lemma_path_le_total(a, a);
    }
    assert forall|a: PathView, b: PathView| #[trigger] le(a, b) && #[trigger] le(b, a) implies a
        == b by {
        lemma_path_le_antisymmetric(a, b);
    }
    assert forall|a: PathView, b: PathView, c: PathView| #[trigger]
        le(a, b) && #[trigger] le(b, c) implies le(a, c) by {
        lemma_path_le_transitive(a, b, c);
    }
    assert forall|a: PathView, b: PathView| #[trigger] le(a, b) || #[trigger] le(b, a) by {
        lemma_path_le_total(a, b);
    }
}

/// Sorted lists that hold the same paths, each as often as the other, are
/// the same list: the order in which the paths were found does not show
/// once they are sorted.
pub proof fn law_sorted_paths_are_unique(x: Seq<PathView>, y: Seq<PathView>)
    requires
        sorted(x),
        sorted(y),
        x.to_multiset() == y.to_multiset(),
    ensures
        x == y,
{
    let le = |a: PathView, b: PathView| path_le(a, b);
    law_path_order_is_total();
    assert(sorted_by(x, le) && sorted_by(y, le));
    lemma_sorted_unique(x, y, le);
}

/// Whether the byte string `a` stands before `b` or is `b`.
fn bytes_precede(a: &[u8], b: &[u8]) -> (r: bool)
    ensures
        r == bytes_le(a@, b@),
{
    let mut i: usize = 0;
    assert(a@.skip(0) =~= a@);
    assert(b@.skip(0) =~= b@);
    loop
        invariant
            i <= a.len(),
            i <= b.len(),
            bytes_le(a@, b@) == bytes_le(a@.skip(i as int), b@.skip(i as int)),
        decreases a.len() - i,
    {
        if i == a.len() {
            return true;
        }
        if i == b.len() {
            return false;
        }
        if a[i] != b[i] {
            return a[i] < b[i];
        }
        assert(a@.skip(i as int).drop_first() =~= a@.skip(i + 1));
        assert(b@.skip(i as int).drop_first() =~= b@.skip(i + 1));
        i += 1;
    }
}

/// Whether the text `a` stands before `b` or is `b`.
pub fn text_precedes(a: &str, b: &str) -> (r: bool)
    ensures
        r == text_le(a@, b@),
{
    bytes_precede(a.as_bytes(), b.as_bytes())
}

/// Whether the list of names `a` stands before `b` or is `b`.
fn names_precede(a: &Vec<String>, b: &Vec<String>) -> (r: bool)
    ensures
        r == names_le(a.deep_view(), b.deep_view()),
{
    let mut i: usize = 0;
    let ghost x = a.deep_view();
    let ghost y = b.deep_view();
    assert(x.skip(0) =~= x);
    assert(y.skip(0) =~= y);
    loop
        invariant
            i <= a.len(),
            i <= b.len(),
            x == a.deep_view(),
            y == b.deep_view(),
            names_le(x, y) == names_le(x.skip(i as int), y.skip(i as int)),
        decreases a.len() - i,
    {
        if i == a.len() {
            return true;
        }
        if i == b.len() {
            return false;
        }
        if !same_text(a[i].as_str(), b[i].as_str()) {
            return text_precedes(a[i].as_str(), b[i].as_str());
        }
        assert(x.skip(i as int).drop_first() =~= x.skip(i + 1));
        assert(y.skip(i as int).drop_first() =~= y.skip(i + 1));
        i += 1;
    }
}

/// Whether the path `a` stands before `b` or is `b`.
pub fn precedes(a: &DiscoveredPath, b: &DiscoveredPath) -> (r: bool)
    ensures
        r == path_le(a@, b@),
{
    if !same_text(a.anchor.as_str(), b.anchor.as_str()) {
        text_precedes(a.anchor.as_str(), b.anchor.as_str())
    } else {
        names_precede(&a.names, &b.names)
    }
}

} // verus!
