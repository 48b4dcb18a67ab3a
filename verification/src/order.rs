//! Orders the entries of a commit tally with the stable sort of `itertools`.

use itertools::Itertools;
use std::cmp::Ordering;
use vstd::prelude::*;

verus! {

/// An entry pairs the number of commits of an author with the position in
/// the history at which that author first appears. `a` outranks `b` when it
/// has more commits, or as many and an earlier first appearance.
pub open spec fn entry_outranks(a: (usize, usize), b: (usize, usize)) -> bool {
    a.0 > b.0 || (a.0 == b.0 && a.1 < b.1)
}

/// `to` holds the items of `from`, moved as `p` says: the item now at `k`
/// stood at `p[k]`, and `p` names every position of `from` exactly once.
pub open spec fn rearranges(p: Seq<int>, from: Seq<(usize, usize)>, to: Seq<(usize, usize)>) -> bool {
    &&& p.len() == from.len()
    &&& to.len() == from.len()
    &&& forall|k: int| 0 <= k < p.len() ==> 0 <= #[trigger] p[k] < from.len()
    &&& forall|i: int, j: int| 0 <= i < j < p.len() ==> #[trigger] p[i] != #[trigger] p[j]
    &&& forall|i: int| 0 <= i < from.len() ==> #[trigger] p.contains(i)
    &&& forall|k: int| 0 <= k < p.len() ==> #[trigger] to[k] == from[p[k]]
}

/// Compares two entries: the one that outranks the other comes first.
pub fn rank_order(a: &(usize, usize), b: &(usize, usize)) -> (o: Ordering)
    ensures
        (o == Ordering::Less) == entry_outranks(*a, *b),
        (o == Ordering::Greater) == entry_outranks(*b, *a),
{
    if a.0 > b.0 {
        Ordering::Less
    } else if a.0 < b.0 {
        Ordering::Greater
    } else if a.1 < b.1 {
        Ordering::Less
    } else if a.1 > b.1 {
        Ordering::Greater
    } else {
        Ordering::Equal
    }
}

/// Sorts the entries with `Itertools::sorted_by`, comparing with
/// `rank_order`. Trusted: that sort hands back the same items in another
/// arrangement, in ascending order of the comparison, so that no item is
/// outranked by one that follows it.
#[verifier::external_body]
pub(crate) fn sort_ranked(entries: Vec<(usize, usize)>) -> (sorted: Vec<(usize, usize)>)
    ensures
        exists|p: Seq<int>| #[trigger] rearranges(p, entries@, sorted@),
        forall|i: int, j: int|
            0 <= i < j < sorted@.len() ==> !entry_outranks(
                #[trigger] sorted@[j],
                #[trigger] sorted@[i],
            ),
{
    entries.into_iter().sorted_by(|a, b| rank_order(a, b)).collect()
}

} // verus!
