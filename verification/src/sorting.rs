//! Sorting paths into their order, by merging.

use crate::order::{lemma_path_le_total, lemma_path_le_transitive, path_le, precedes, sorted};
use crate::path::{views_of, DiscoveredPath, PathView};
use vstd::multiset::{lemma_multiset_empty_len, Multiset};
use vstd::prelude::*;
use vstd::seq_lib::{lemma_multiset_commutative, to_multiset_build};

verus! {

/// Whether each path stands behind, or is, every path behind it.
spec fn descending(paths: Seq<PathView>) -> bool {
    forall|i: int, j: int| 0 <= i < j < paths.len() ==> path_le(paths[j], paths[i])
}

/// Whether every path of `low` stands before, or is, every path of `high`.
spec fn all_le(low: Seq<PathView>, high: Seq<PathView>) -> bool {
    forall|i: int, j: int| 0 <= i < low.len() && 0 <= j < high.len() ==> path_le(low[i], high[j])
}

/// The paths of a list as a multiset.
pub open spec fn bag_of(paths: Seq<DiscoveredPath>) -> Multiset<PathView> {
    views_of(paths).to_multiset()
}

/// No paths make the empty multiset.
pub proof fn lemma_empty_bag(views: Seq<PathView>)
    requires
        views.len() == 0,
    ensures
        views.to_multiset() == Multiset::<PathView>::empty(),
{
    views.to_multiset_ensures();
    lemma_multiset_empty_len(views.to_multiset());
}

/// An empty list holds no path.
proof fn lemma_bag_of_nothing(paths: Seq<DiscoveredPath>)
    requires
        paths.len() == 0,
    ensures
        views_of(paths) == Seq::<PathView>::empty(),
        bag_of(paths) == Multiset::<PathView>::empty(),
{
    lemma_empty_bag(views_of(paths));
}

/// A list holds what it holds without its last path, and that path.
proof fn lemma_bag_without_last(paths: Seq<DiscoveredPath>)
    requires
        paths.len() > 0,
    ensures
        views_of(paths.drop_last()) == views_of(paths).drop_last(),
        bag_of(paths) == bag_of(paths.drop_last()).insert(paths.last()@),
{
    assert(views_of(paths) =~= views_of(paths.drop_last()).push(paths.last()@));
    to_multiset_build(views_of(paths.drop_last()), paths.last()@);
}

/// A list with one more path holds what it held, and that path.
proof fn lemma_bag_with_one_more(paths: Seq<DiscoveredPath>, path: DiscoveredPath)
    ensures
        views_of(paths.push(path)) == views_of(paths).push(path@),
        bag_of(paths.push(path)) == bag_of(paths).insert(path@),
{
    assert(views_of(paths.push(path)) =~= views_of(paths).push(path@));
    to_multiset_build(views_of(paths), path@);
}

/// Moves the last path of `from` to the end of `to`.
fn move_last(from: &mut Vec<DiscoveredPath>, to: &mut Vec<DiscoveredPath>)
    requires
        old(from)@.len() > 0,
    ensures
        final(from)@ == old(from)@.drop_last(),
        final(to)@ == old(to)@.push(old(from)@.last()),
        bag_of(final(from)@).add(bag_of(final(to)@)) == bag_of(old(from)@).add(bag_of(old(to)@)),
{
    proof {
        lemma_bag_without_last(from@);
        lemma_bag_with_one_more(to@, from@.last());
    }
    let last = from.pop();
    match last {
        Some(path) => {
            to.push(path);
        },
        None => {},
    }
}

/// Merges two sorted lists into one.
fn merge(left: Vec<DiscoveredPath>, right: Vec<DiscoveredPath>) -> (out: Vec<DiscoveredPath>)
    requires
        sorted(views_of(left@)),
        sorted(views_of(right@)),
    ensures
        sorted(views_of(out@)),
        bag_of(out@) == bag_of(left@).add(bag_of(right@)),
{
    let mut left = left;
    let mut right = right;
    let ghost total = bag_of(left@).add(bag_of(right@));
    // The greatest path of what is left goes first, so `down` descends.
    let mut down: Vec<DiscoveredPath> = Vec::new();
    proof {
        lemma_bag_of_nothing(down@);
    }
    while left.len() > 0 || right.len() > 0
        invariant
            sorted(views_of(left@)),
            sorted(views_of(right@)),
            descending(views_of(down@)),
            all_le(views_of(left@), views_of(down@)),
            all_le(views_of(right@), views_of(down@)),
            bag_of(left@).add(bag_of(right@)).add(bag_of(down@)) == total,
        decreases left.len() + right.len(),
    {
        let ghost l = views_of(left@);
        let ghost r = views_of(right@);
        let ghost d = views_of(down@);
        let from_right = if left.len() == 0 {
            true
        } else if right.len() == 0 {
            false
        } else {
            precedes(&left[left.len() - 1], &right[right.len() - 1])
        };
        if from_right {
            let ghost top = r.last();
            proof {
                lemma_bag_without_last(right@);
                lemma_bag_with_one_more(down@, right@.last());
                assert forall|i: int| 0 <= i < l.len() implies path_le(l[i], top) by {
                    if i < l.len() - 1 {
                        lemma_path_le_transitive(l[i], l.last(), top);
                    }
                }
            }
            move_last(&mut right, &mut down);
        } else {
            let ghost top = l.last();
            proof {
                lemma_bag_without_last(left@);
                lemma_bag_with_one_more(down@, left@.last());
                assert forall|i: int| 0 <= i < r.len() implies path_le(r[i], top) by {
                    lemma_path_le_total(l.last(), r.last());
                    if i < r.len() - 1 {
                        lemma_path_le_transitive(r[i], r.last(), top);
                    }
                }
            }
            move_last(&mut left, &mut down);
        }
    }
    let mut out: Vec<DiscoveredPath> = Vec::new();
    proof {
        lemma_bag_of_nothing(out@);
        lemma_bag_of_nothing(left@);
        lemma_bag_of_nothing(right@);
    }
    while down.len() > 0
        invariant
            descending(views_of(down@)),
            sorted(views_of(out@)),
            all_le(views_of(out@), views_of(down@)),
            bag_of(down@).add(bag_of(out@)) == total,
        decreases down.len(),
    {
        let ghost d = views_of(down@);
        let ghost o = views_of(out@);
        proof {
            lemma_bag_without_last(down@);
            lemma_bag_with_one_more(out@, down@.last());
        }
        move_last(&mut down, &mut out);
        proof {
            assert(views_of(out@) == o.push(d.last()));
            assert(views_of(down@) == d.drop_last());
        }
    }
    proof {
        lemma_bag_of_nothing(down@);
    }
    out
}

/// Sorts the paths into their order. Nothing is added and nothing is lost:
/// the result holds each path as often as `paths` holds it.
pub fn sort_paths(paths: Vec<DiscoveredPath>) -> (out: Vec<DiscoveredPath>)
    ensures
        sorted(views_of(out@)),
        bag_of(out@) == bag_of(paths@),
    decreases paths@.len(),
{
    if paths.len() <= 1 {
        return paths;
    }
    let mut left = paths;
    let half = left.len() / 2;
    let right = left.split_off(half);
    proof {
        assert(views_of(paths@) =~= views_of(left@) + views_of(right@));
        lemma_multiset_commutative(views_of(left@), views_of(right@));
    }
    let left = sort_paths(left);
    let right = sort_paths(right);
    merge(left, right)
}

} // verus!
