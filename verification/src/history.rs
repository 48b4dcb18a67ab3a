//! Attributes the commits of a history to their authors and ranks the
//! authors by how much they committed.

use crate::converter::{
    copy_text, Contributor, ContributorView, ConverterOutput, ConverterOutputView, Repository,
    RepositoryPlatform,
};
use crate::remote::repository_of;
use crate::text::join;
use crate::order::{entry_outranks, rearranges, sort_ranked};
use vstd::prelude::*;

verus! {

/// The author fields of one commit.
#[derive(Debug, PartialEq, Eq)]
pub struct CommitAuthor {
    pub name: String,
    pub email: String,
}

pub struct CommitAuthorView {
    pub name: Seq<char>,
    pub email: Seq<char>,
}

impl DeepView for CommitAuthor {
    type V = CommitAuthorView;

    open spec fn deep_view(&self) -> CommitAuthorView {
        CommitAuthorView { name: self.name.deep_view(), email: self.email.deep_view() }
    }
}

impl Clone for CommitAuthor {
    fn clone(&self) -> (copy: Self)
        ensures
            copy == *self,
    {
        CommitAuthor { name: self.name.clone(), email: self.email.clone() }
    }
}

impl CommitAuthorView {
    /// The contributor that stands for this author: name and email, no url.
    pub open spec fn credit(self) -> ContributorView {
        ContributorView { name: Some(self.name), email: Some(self.email), url: None }
    }
}

/// How many commits of the history are by `who`, name and email compared
/// exactly.
pub open spec fn commits_by(log: Seq<CommitAuthorView>, who: CommitAuthorView) -> nat {
    log.to_multiset().count(who)
}

/// The commit at `p` is the first of its author in the history.
pub open spec fn is_first_seen(log: Seq<CommitAuthorView>, p: int) -> bool {
    &&& 0 <= p < log.len()
    &&& forall|q: int| 0 <= q < p ==> log[q] != log[p]
}

/// The author first seen at `p` comes before the one first seen at `q`:
/// more commits, or as many and seen earlier.
pub open spec fn outranks(log: Seq<CommitAuthorView>, p: int, q: int) -> bool {
    commits_by(log, log[p]) > commits_by(log, log[q]) || (commits_by(log, log[p]) == commits_by(
        log,
        log[q],
    ) && p < q)
}

/// `order` lists the first appearance of every author of the history, each
/// once, from the highest rank down.
pub open spec fn is_ranking(log: Seq<CommitAuthorView>, order: Seq<int>) -> bool {
    &&& forall|k: int| 0 <= k < order.len() ==> is_first_seen(log, #[trigger] order[k])
    &&& forall|p: int| is_first_seen(log, p) ==> #[trigger] order.contains(p)
    &&& forall|i: int, j: int|
        0 <= i < j < order.len() ==> outranks(log, #[trigger] order[i], #[trigger] order[j])
}

/// The ranking of the history's authors, as positions of first appearance.
pub open spec fn ranking(log: Seq<CommitAuthorView>) -> Seq<int> {
    choose|order: Seq<int>| is_ranking(log, order)
}

/// The contributors of a history: one per author, by descending number of
/// commits, authors with as many commits in the order of first appearance.
pub open spec fn ranked(log: Seq<CommitAuthorView>) -> Seq<ContributorView> {
    Seq::new(ranking(log).len(), |k: int| log[ranking(log)[k]].credit())
}

proof fn lemma_same_members_same_order(log: Seq<CommitAuthorView>, a: Seq<int>, b: Seq<int>)
    requires
        forall|i: int, j: int|
            0 <= i < j < a.len() ==> outranks(log, #[trigger] a[i], #[trigger] a[j]),
        forall|i: int, j: int|
            0 <= i < j < b.len() ==> outranks(log, #[trigger] b[i], #[trigger] b[j]),
        forall|x: int| a.contains(x) <==> b.contains(x),
    ensures
        a == b,
    decreases a.len(),
{
    if a.len() == 0 {
        if b.len() > 0 {
            assert(b.contains(b[0]));
            assert(a.contains(b[0]));
        }
        assert(a =~= b);
    } else {
        let m = a.last();
        assert(a.contains(m));
        assert(b.contains(m));
        let n = b.last();
        assert(b.contains(n));
        assert(a.contains(n));
        let j = choose|j: int| 0 <= j < b.len() && b[j] == m;
        let i = choose|i: int| 0 <= i < a.len() && a[i] == n;
        if m != n {
            assert(outranks(log, b[j], b[b.len() - 1]));
            assert(outranks(log, a[i], a[a.len() - 1]));
        }
        let a0 = a.drop_last();
        let b0 = b.drop_last();
        assert forall|x: int| a0.contains(x) <==> b0.contains(x) by {
            if a0.contains(x) {
                let k = choose|k: int| 0 <= k < a0.len() && a0[k] == x;
                assert(a[k] == x);
                assert(outranks(log, a[k], a[a.len() - 1]));
                assert(a.contains(x));
                let l = choose|l: int| 0 <= l < b.len() && b[l] == x;
                assert(l < b.len() - 1);
                assert(b0[l] == x);
            }
            if b0.contains(x) {
                let k = choose|k: int| 0 <= k < b0.len() && b0[k] == x;
                assert(b[k] == x);
                assert(outranks(log, b[k], b[b.len() - 1]));
                assert(b.contains(x));
                let l = choose|l: int| 0 <= l < a.len() && a[l] == x;
                assert(l < a.len() - 1);
                assert(a0[l] == x);
            }
        }
        assert forall|i: int, j: int| 0 <= i < j < a0.len() implies outranks(
            log,
            #[trigger] a0[i],
            #[trigger] a0[j],
        ) by {
            assert(outranks(log, a[i], a[j]));
        }
        assert forall|i: int, j: int| 0 <= i < j < b0.len() implies outranks(
            log,
            #[trigger] b0[i],
            #[trigger] b0[j],
        ) by {
            assert(outranks(log, b[i], b[j]));
        }
        lemma_same_members_same_order(log, a0, b0);
        assert(a =~= a0.push(m));
        assert(b =~= b0.push(n));
    }
}

/// A history has one ranking only: the same commits always give the same
/// list of contributors.
pub proof fn lemma_ranking_unique(log: Seq<CommitAuthorView>, a: Seq<int>, b: Seq<int>)
    requires
        is_ranking(log, a),
        is_ranking(log, b),
    ensures
        a == b,
{
    assert forall|x: int| a.contains(x) <==> b.contains(x) by {
        if a.contains(x) {
            let k = choose|k: int| 0 <= k < a.len() && a[k] == x;
            assert(is_first_seen(log, a[k]));
            assert(b.contains(x));
        }
        if b.contains(x) {
            let k = choose|k: int| 0 <= k < b.len() && b[k] == x;
            assert(is_first_seen(log, b[k]));
            assert(a.contains(x));
        }
    }
    lemma_same_members_same_order(log, a, b);
}

/// `order` with the position `p` put in where its rank places it.
spec fn placed(log: Seq<CommitAuthorView>, order: Seq<int>, p: int) -> Seq<int>
    decreases order.len(),
{
    if order.len() == 0 {
        seq![p]
    } else if outranks(log, order.last(), p) {
        order.push(p)
    } else {
        placed(log, order.drop_last(), p).push(order.last())
    }
}

/// The ranking of the authors that first appear before the commit at `n`.
spec fn ranking_before(log: Seq<CommitAuthorView>, n: int) -> Seq<int>
    decreases n,
{
    if n <= 0 {
        Seq::empty()
    } else if is_first_seen(log, n - 1) {
        placed(log, ranking_before(log, n - 1), n - 1)
    } else {
        ranking_before(log, n - 1)
    }
}

proof fn lemma_placed(log: Seq<CommitAuthorView>, order: Seq<int>, p: int)
    requires
        forall|i: int, j: int|
            0 <= i < j < order.len() ==> outranks(log, #[trigger] order[i], #[trigger] order[j]),
        !order.contains(p),
    ensures
        forall|i: int, j: int|
            0 <= i < j < placed(log, order, p).len() ==> outranks(
                log,
                #[trigger] placed(log, order, p)[i],
                #[trigger] placed(log, order, p)[j],
            ),
        forall|x: int| #[trigger] placed(log, order, p).contains(x) <==> order.contains(x) || x == p,
    decreases order.len(),
{
    let out = placed(log, order, p);
    if order.len() == 0 {
        assert(out[0] == p);
        assert forall|x: int| #[trigger] out.contains(x) <==> order.contains(x) || x == p by {
            if out.contains(x) {
                let k = choose|k: int| 0 <= k < out.len() && out[k] == x;
            }
        }
    } else if outranks(log, order.last(), p) {
        assert forall|i: int, j: int| 0 <= i < j < out.len() implies outranks(
            log,
            #[trigger] out[i],
            #[trigger] out[j],
        ) by {
            if j == order.len() {
                if i < order.len() - 1 {
                    assert(outranks(log, order[i], order[order.len() - 1]));
                }
            } else {
                assert(outranks(log, order[i], order[j]));
            }
        }
        assert forall|x: int| #[trigger] out.contains(x) <==> order.contains(x) || x == p by {
            if out.contains(x) {
                let k = choose|k: int| 0 <= k < out.len() && out[k] == x;
                if k < order.len() {
                    assert(order[k] == x);
                }
            }
            if order.contains(x) {
                let k = choose|k: int| 0 <= k < order.len() && order[k] == x;
                assert(out[k] == x);
            }
            if x == p {
                assert(out[order.len() as int] == p);
            }
        }
    } else {
        let front = order.drop_last();
        let last = order.last();
        assert(order.contains(last));
        assert(!front.contains(p)) by {
            if front.contains(p) {
                let k = choose|k: int| 0 <= k < front.len() && front[k] == p;
                assert(order[k] == p);
            }
        }
        assert forall|i: int, j: int| 0 <= i < j < front.len() implies outranks(
            log,
            #[trigger] front[i],
            #[trigger] front[j],
        ) by {
            assert(outranks(log, order[i], order[j]));
        }
        lemma_placed(log, front, p);
        let inner = placed(log, front, p);
        assert(out == inner.push(last));
        assert forall|i: int, j: int| 0 <= i < j < out.len() implies outranks(
            log,
            #[trigger] out[i],
            #[trigger] out[j],
        ) by {
            if j == inner.len() {
                assert(inner.contains(inner[i]));
                if inner[i] != p {
                    assert(front.contains(inner[i]));
                    let k = choose|k: int| 0 <= k < front.len() && front[k] == inner[i];
                    assert(outranks(log, order[k], order[order.len() - 1]));
                }
            } else {
                assert(outranks(log, inner[i], inner[j]));
            }
        }
        assert forall|x: int| #[trigger] out.contains(x) <==> order.contains(x) || x == p by {
            if out.contains(x) {
                let k = choose|k: int| 0 <= k < out.len() && out[k] == x;
                if k < inner.len() {
                    assert(inner.contains(inner[k]));
                    if x != p {
                        assert(front.contains(x));
                        let l = choose|l: int| 0 <= l < front.len() && front[l] == x;
                        assert(order[l] == x);
                    }
                }
            }
            if order.contains(x) {
                let k = choose|k: int| 0 <= k < order.len() && order[k] == x;
                if k < front.len() {
                    assert(front[k] == x);
                    assert(front.contains(x));
                    assert(inner.contains(x));
                    let l = choose|l: int| 0 <= l < inner.len() && inner[l] == x;
                    assert(out[l] == x);
                } else {
                    assert(out[inner.len() as int] == x);
                }
            }
            if x == p {
                assert(inner.contains(p));
                let l = choose|l: int| 0 <= l < inner.len() && inner[l] == p;
                assert(out[l] == p);
            }
        }
    }
}

proof fn lemma_ranking_before(log: Seq<CommitAuthorView>, n: int)
    requires
        0 <= n <= log.len(),
    ensures
        forall|i: int, j: int|
            0 <= i < j < ranking_before(log, n).len() ==> outranks(
                log,
                #[trigger] ranking_before(log, n)[i],
                #[trigger] ranking_before(log, n)[j],
            ),
        forall|x: int| #[trigger]
            ranking_before(log, n).contains(x) <==> is_first_seen(log, x) && x < n,
    decreases n,
{
    let out = ranking_before(log, n);
    if n == 0 {
        assert forall|x: int| #[trigger] out.contains(x) <==> is_first_seen(log, x) && x < n by {
            if out.contains(x) {
                let k = choose|k: int| 0 <= k < out.len() && out[k] == x;
            }
        }
    } else {
        lemma_ranking_before(log, n - 1);
        if is_first_seen(log, n - 1) {
            lemma_placed(log, ranking_before(log, n - 1), n - 1);
        }
    }
}

/// Every history has a ranking.
pub proof fn lemma_ranking_exists(log: Seq<CommitAuthorView>)
    ensures
        is_ranking(log, ranking(log)),
{
    let order = ranking_before(log, log.len() as int);
    lemma_ranking_before(log, log.len() as int);
    assert forall|k: int| 0 <= k < order.len() implies is_first_seen(log, #[trigger] order[k]) by {
        assert(order.contains(order[k]));
    }
    assert(is_ranking(log, order));
}

/// Whether two commits have the same author.
pub fn same_author(a: &CommitAuthor, b: &CommitAuthor) -> (same: bool)
    ensures
        same == (a.deep_view() == b.deep_view()),
{
    a.name == b.name && a.email == b.email
}

/// Some entry stands for the author of the commit at `q`.
spec fn covered(log: Seq<CommitAuthorView>, entries: Seq<(usize, usize)>, q: int) -> bool {
    exists|j: int| 0 <= j < entries.len() && log[(#[trigger] entries[j]).1 as int] == log[q]
}

/// `entries` counts the first `n` commits: one entry per author, in the
/// order of first appearance, each with the number of commits so far.
spec fn is_tally(log: Seq<CommitAuthorView>, n: int, entries: Seq<(usize, usize)>) -> bool {
    &&& forall|j: int|
        0 <= j < entries.len() ==> (#[trigger] entries[j]).1 < n && is_first_seen(
            log,
            entries[j].1 as int,
        )
    &&& forall|i: int, j: int|
        0 <= i < j < entries.len() ==> (#[trigger] entries[i]).1 < (#[trigger] entries[j]).1
    &&& forall|q: int| 0 <= q < n ==> #[trigger] covered(log, entries, q)
    &&& forall|j: int|
        0 <= j < entries.len() ==> (#[trigger] entries[j]).0 == commits_by(
            log.take(n),
            log[entries[j].1 as int],
        )
}

/// The positions of first appearance that the entries hold, in their order.
spec fn positions(entries: Seq<(usize, usize)>) -> Seq<int> {
    Seq::new(entries.len(), |k: int| entries[k].1 as int)
}

proof fn lemma_commits_step(log: Seq<CommitAuthorView>, i: int, who: CommitAuthorView)
    requires
        0 <= i < log.len(),
    ensures
        commits_by(log.take(i + 1), who) == commits_by(log.take(i), who) + if log[i] == who {
            1nat
        } else {
            0nat
        },
        commits_by(log.take(i), who) <= i,
        !log.take(i).contains(who) ==> commits_by(log.take(i), who) == 0,
{
    broadcast use vstd::multiset::group_multiset_axioms;

    assert(log.take(i + 1) =~= log.take(i).push(log[i]));
    log.take(i).to_multiset_ensures();
}

fn find_entry(authors: &Vec<CommitAuthor>, entries: &Vec<(usize, usize)>, i: usize) -> (found:
    Option<usize>)
    requires
        i < authors.len(),
        forall|j: int| 0 <= j < entries.len() ==> (#[trigger] entries[j]).1 < authors.len(),
    ensures
        match found {
            Some(j) => j < entries.len() && authors.deep_view()[entries[j as int].1 as int]
                == authors.deep_view()[i as int],
            None => forall|k: int|
                0 <= k < entries.len() ==> authors.deep_view()[(#[trigger] entries[k]).1 as int]
                    != authors.deep_view()[i as int],
        },
{
    let mut j: usize = 0;
    while j < entries.len()
        invariant
            j <= entries.len(),
            i < authors.len(),
            forall|j: int| 0 <= j < entries.len() ==> (#[trigger] entries[j]).1 < authors.len(),
            forall|k: int|
                0 <= k < j ==> authors.deep_view()[(#[trigger] entries[k]).1 as int]
                    != authors.deep_view()[i as int],
        decreases entries.len() - j,
    {
        if same_author(&authors[entries[j].1], &authors[i]) {
            return Some(j);
        }
        j += 1;
    }
    None
}

/// Counts the commits of every author, authors in the order of first
/// appearance.
fn tally(authors: &Vec<CommitAuthor>) -> (entries: Vec<(usize, usize)>)
    ensures
        is_tally(authors.deep_view(), authors.len() as int, entries@),
{
    let ghost log = authors.deep_view();
    let mut entries: Vec<(usize, usize)> = Vec::new();
    let mut i: usize = 0;
    while i < authors.len()
        invariant
            i <= authors.len(),
            log == authors.deep_view(),
            is_tally(log, i as int, entries@),
        decreases authors.len() - i,
    {
        let ghost before = entries@;
        let found = find_entry(authors, &entries, i);
        match found {
            Some(j) => {
                let entry = entries[j];
                proof {
                    lemma_commits_step(log, i as int, log[entry.1 as int]);
                }
                entries.set(j, (entry.0 + 1, entry.1));
                proof {
                    assert forall|q: int| 0 <= q < i + 1 implies #[trigger] covered(
                        log,
                        entries@,
                        q,
                    ) by {
                        if q < i {
                            assert(covered(log, before, q));
                            let w = choose|w: int|
                                0 <= w < before.len() && log[(#[trigger] before[w]).1 as int]
                                    == log[q];
                            assert(entries@[w].1 == before[w].1);
                        } else {
                            assert(entries@[j as int].1 == before[j as int].1);
                        }
                    }
                    assert forall|k: int| 0 <= k < entries@.len() implies (#[trigger] entries@[k]).0
                        == commits_by(log.take(i + 1), log[entries@[k].1 as int]) by {
                        lemma_commits_step(log, i as int, log[before[k].1 as int]);
                        if k != j {
                            assert(before[k].1 != before[j as int].1);
                        }
                    }
                }
            },
            None => {
                entries.push((1, i));
                proof {
                    assert forall|q: int| 0 <= q < i implies log[q] != log[i as int] by {
                        assert(covered(log, before, q));
                    }
                    assert forall|q: int| 0 <= q < i + 1 implies #[trigger] covered(
                        log,
                        entries@,
                        q,
                    ) by {
                        if q < i {
                            assert(covered(log, before, q));
                            let w = choose|w: int|
                                0 <= w < before.len() && log[(#[trigger] before[w]).1 as int]
                                    == log[q];
                            assert(entries@[w] == before[w]);
                        } else {
                            assert(entries@[before.len() as int].1 == i);
                        }
                    }
                    assert forall|k: int| 0 <= k < entries@.len() implies (#[trigger] entries@[k]).0
                        == commits_by(log.take(i + 1), log[entries@[k].1 as int]) by {
                        lemma_commits_step(log, i as int, log[entries@[k].1 as int]);
                        if k < before.len() {
                            assert(entries@[k] == before[k]);
                        }
                    }
                }
            },
        }
        i += 1;
    }
    proof {
        assert(log.take(authors.len() as int) =~= log);
    }
    entries
}

proof fn lemma_sorted_tally_is_ranking(
    log: Seq<CommitAuthorView>,
    entries: Seq<(usize, usize)>,
    sorted: Seq<(usize, usize)>,
)
    requires
        is_tally(log, log.len() as int, entries),
        exists|p: Seq<int>| #[trigger] rearranges(p, entries, sorted),
        forall|i: int, j: int|
            0 <= i < j < sorted.len() ==> !entry_outranks(#[trigger] sorted[j], #[trigger] sorted[i]),
    ensures
        is_ranking(log, positions(sorted)),
        forall|k: int| 0 <= k < sorted.len() ==> (#[trigger] sorted[k]).1 < log.len(),
{
    let p = choose|p: Seq<int>| #[trigger] rearranges(p, entries, sorted);
    let order = positions(sorted);
    assert(log.take(log.len() as int) =~= log);
    assert forall|k: int| 0 <= k < sorted.len() implies (#[trigger] sorted[k]).1 < log.len()
        && is_first_seen(log, sorted[k].1 as int) by {
        assert(sorted[k] == entries[p[k]]);
    }
    assert forall|q: int| is_first_seen(log, q) implies #[trigger] order.contains(q) by {
        assert(covered(log, entries, q));
        let j = choose|j: int|
            0 <= j < entries.len() && log[(#[trigger] entries[j]).1 as int] == log[q];
        assert(is_first_seen(log, entries[j].1 as int));
        assert(entries[j].1 == q);
        assert(p.contains(j));
        let k = choose|k: int| 0 <= k < p.len() && p[k] == j;
        assert(sorted[k] == entries[p[k]]);
        assert(order[k] == q);
    }
    assert forall|i: int, j: int| 0 <= i < j < order.len() implies outranks(
        log,
        #[trigger] order[i],
        #[trigger] order[j],
    ) by {
        assert(sorted[i] == entries[p[i]]);
        assert(sorted[j] == entries[p[j]]);
        assert(p[i] != p[j]);
        if p[i] < p[j] {
            assert(entries[p[i]].1 < entries[p[j]].1);
        } else {
            assert(entries[p[j]].1 < entries[p[i]].1);
        }
        assert(!entry_outranks(sorted[j], sorted[i]));
    }
}

/// Turns the authors of a history's commits, in the order in which the
/// commits were read, into the list of contributors: one per author, by
/// descending number of commits, ties in the order of first appearance.
pub fn rank_contributors(authors: &Vec<CommitAuthor>) -> (list: Vec<Contributor>)
    ensures
        list.deep_view() == ranked(authors.deep_view()),
        is_ranking(authors.deep_view(), ranking(authors.deep_view())),
{
    let ghost log = authors.deep_view();
    let entries = tally(authors);
    let ghost counted = entries@;
    let sorted = sort_ranked(entries);
    proof {
        lemma_sorted_tally_is_ranking(log, counted, sorted@);
    }
    let mut list: Vec<Contributor> = Vec::new();
    let mut k: usize = 0;
    while k < sorted.len()
        invariant
            k <= sorted.len(),
            log == authors.deep_view(),
            forall|j: int| 0 <= j < sorted.len() ==> (#[trigger] sorted[j]).1 < authors.len(),
            list.len() == k,
            forall|j: int|
                0 <= j < k ==> (#[trigger] list[j]).deep_view() == log[sorted[j].1 as int].credit(),
        decreases sorted.len() - k,
    {
        let author = &authors[sorted[k].1];
        list.push(
            Contributor {
                name: Some(author.name.clone()),
                email: Some(author.email.clone()),
                url: None,
            },
        );
        k += 1;
    }
    proof {
        let order = positions(sorted@);
        assert(is_ranking(log, order));
        lemma_ranking_unique(log, order, ranking(log));
        assert(list.deep_view() =~= ranked(log));
    }
    list
}

/// What can go wrong while the store is read.
#[derive(Debug, Clone, Copy, PartialEq, Eq, Structural)]
pub enum GitFailure {
    /// The location holds no store that can be opened.
    Open,
    /// The store has no remote called `origin`, or that remote has no URL.
    Remote,
    /// The current branch cannot be resolved.
    Head,
    /// The current branch does not lead to a commit.
    Peel,
    /// The walk over the history cannot be set up.
    Revwalk,
    /// The walk cannot tell the next commit.
    Oid,
    /// A commit of the history cannot be read.
    Commit,
}

impl GitFailure {
    /// The warning to show for this failure; `{}` marks the place of the
    /// cause.
    pub open spec fn warning_text(self) -> Seq<char> {
        match self {
            GitFailure::Open => "Failed to open repository: {}"@,
            GitFailure::Remote => "Failed to find the origin remote: {}"@,
            GitFailure::Head => "Failed to get repository head: {}"@,
            GitFailure::Peel => "Failed to peel to commit of the repository: {}"@,
            GitFailure::Revwalk => "Failed to get revwalk of the repository: {}"@,
            GitFailure::Oid => "Failed to get oid of the repository: {}"@,
            GitFailure::Commit => "Failed to find commit: {}"@,
        }
    }

    /// The warning to show for this failure; `{}` marks the place of the
    /// cause.
    pub fn warning(&self) -> (text: String)
        ensures
            text@ == self.warning_text(),
    {
        match self {
            GitFailure::Open => "Failed to open repository: {}".to_owned(),
            GitFailure::Remote => "Failed to find the origin remote: {}".to_owned(),
            GitFailure::Head => "Failed to get repository head: {}".to_owned(),
            GitFailure::Peel => "Failed to peel to commit of the repository: {}".to_owned(),
            GitFailure::Revwalk => "Failed to get revwalk of the repository: {}".to_owned(),
            GitFailure::Oid => "Failed to get oid of the repository: {}".to_owned(),
            GitFailure::Commit => "Failed to find commit: {}".to_owned(),
        }
    }
}

/// What the store yielded at one step of a scan.
#[derive(Debug, PartialEq, Eq)]
pub enum GitEvent {
    /// The step failed.
    Failed(GitFailure),
    /// The store is open and its `origin` remote has this URL.
    Remote(String),
    /// The next commit of the history was read; these are its author's
    /// fields, as far as it has them.
    Commit { name: Option<String>, email: Option<String> },
    /// The history holds no further commit.
    End,
}

pub enum GitEventView {
    Failed(GitFailure),
    Remote(Seq<char>),
    Commit { name: Option<Seq<char>>, email: Option<Seq<char>> },
    End,
}

impl DeepView for GitEvent {
    type V = GitEventView;

    open spec fn deep_view(&self) -> GitEventView {
        match self {
            GitEvent::Failed(failure) => GitEventView::Failed(*failure),
            GitEvent::Remote(url) => GitEventView::Remote(url.deep_view()),
            GitEvent::Commit { name, email } => GitEventView::Commit {
                name: name.deep_view(),
                email: email.deep_view(),
            },
            GitEvent::End => GitEventView::End,
        }
    }
}

impl Clone for GitEvent {
    fn clone(&self) -> (copy: Self)
        ensures
            copy == *self,
    {
        match self {
            GitEvent::Failed(failure) => GitEvent::Failed(*failure),
            GitEvent::Remote(url) => GitEvent::Remote(url.clone()),
            GitEvent::Commit { name, email } => GitEvent::Commit {
                name: copy_text(name),
                email: copy_text(email),
            },
            GitEvent::End => GitEvent::End,
        }
    }
}

/// How far a scan has come.
#[derive(Debug, Clone, Copy, PartialEq, Eq, Structural)]
pub enum GitPhase {
    /// The store is to be opened and its remote resolved.
    Opening,
    /// The history is being walked, commit by commit.
    Walking,
    /// The record is complete.
    Done,
}

/// What the one who reads the store has to do next.
#[derive(Debug, Clone, Copy, PartialEq, Eq, Structural)]
pub enum GitAction {
    /// Open the store and resolve the URL of its `origin` remote.
    ResolveRemote,
    /// Read the next commit of the history, from the tip of the current
    /// branch back.
    ReadCommit,
    /// Stop reading and take the record.
    Finish,
}

/// A scan of a project's history in progress: the record as far as it is
/// known, and the authors of the commits read so far.
#[derive(Debug)]
pub struct GitScan {
    pub record: ConverterOutput,
    pub authors: Vec<CommitAuthor>,
    pub phase: GitPhase,
}

pub struct GitScanView {
    pub record: ConverterOutputView,
    pub authors: Seq<CommitAuthorView>,
    pub phase: GitPhase,
}

impl DeepView for GitScan {
    type V = GitScanView;

    open spec fn deep_view(&self) -> GitScanView {
        GitScanView {
            record: self.record.deep_view(),
            authors: self.authors.deep_view(),
            phase: self.phase,
        }
    }
}

impl GitScanView {
    /// The scan of the project at `location` before anything was read: the
    /// record names the store as its source and nothing else.
    pub open spec fn start(location: Seq<char>) -> GitScanView {
        GitScanView {
            record: ConverterOutputView {
                source_config_file_path: Some(location + ".git"@),
                ..ConverterOutputView::empty()
            },
            authors: Seq::empty(),
            phase: GitPhase::Opening,
        }
    }

    /// The scan with its walk closed: the authors seen so far become the
    /// record's contributors.
    pub open spec fn closed(self) -> GitScanView {
        GitScanView {
            record: ConverterOutputView {
                contributors: Some(ranked(self.authors)),
                ..self.record
            },
            phase: GitPhase::Done,
            ..self
        }
    }

    /// The scan after one more event.
    ///
    /// While opening, a remote fills in repository and name, and ends the
    /// scan at once where the platform is GitHub, whose own data on
    /// contributors is preferred; any failure ends the scan with the record
    /// as it is. While walking, a commit with both author fields is counted;
    /// one that lacks a field, or the end of the history, closes the walk
    /// with the contributors counted so far; a failure ends the scan without
    /// contributors. An event that the phase does not expect changes
    /// nothing.
    pub open spec fn after(self, event: GitEventView) -> GitScanView {
        match self.phase {
            GitPhase::Opening => match event {
                GitEventView::Remote(url) => GitScanView {
                    record: ConverterOutputView {
                        repository: Some(repository_of(url)),
                        name: repository_of(url).name,
                        ..self.record
                    },
                    phase: if repository_of(url).platform == RepositoryPlatform::Github {
                        GitPhase::Done
                    } else {
                        GitPhase::Walking
                    },
                    ..self
                },
                GitEventView::Failed(_) => GitScanView { phase: GitPhase::Done, ..self },
                _ => self,
            },
            GitPhase::Walking => match event {
                GitEventView::Commit { name: Some(name), email: Some(email) } => GitScanView {
                    authors: self.authors.push(CommitAuthorView { name, email }),
                    ..self
                },
                GitEventView::Commit { .. } => self.closed(),
                GitEventView::End => self.closed(),
                GitEventView::Failed(_) => GitScanView { phase: GitPhase::Done, ..self },
                GitEventView::Remote(_) => self,
            },
            GitPhase::Done => self,
        }
    }

    /// The scan after a run of events.
    pub open spec fn after_all(self, events: Seq<GitEventView>) -> GitScanView
        decreases events.len(),
    {
        if events.len() == 0 {
            self
        } else {
            self.after_all(events.drop_last()).after(events.last())
        }
    }

    /// What is to be done next.
    pub open spec fn next(self) -> GitAction {
        match self.phase {
            GitPhase::Opening => GitAction::ResolveRemote,
            GitPhase::Walking => GitAction::ReadCommit,
            GitPhase::Done => GitAction::Finish,
        }
    }
}

impl GitScan {
    /// Starts the scan of the project at `project_location`.
    pub fn new(project_location: &str) -> (scan: GitScan)
        ensures
            scan.deep_view() == GitScanView::start(project_location@),
    {
        let mut record = ConverterOutput::empty();
        record.source_config_file_path = Some(join(project_location, ".git"));
        let scan = GitScan { record, authors: Vec::new(), phase: GitPhase::Opening };
        assert(scan.authors.deep_view() =~= Seq::empty());
        scan
    }

    /// What is to be done next.
    pub fn next(&self) -> (action: GitAction)
        ensures
            action == self.deep_view().next(),
    {
        match self.phase {
            GitPhase::Opening => GitAction::ResolveRemote,
            GitPhase::Walking => GitAction::ReadCommit,
            GitPhase::Done => GitAction::Finish,
        }
    }

    fn close(&mut self)
        ensures
            final(self).deep_view() == old(self).deep_view().closed(),
    {
        self.record.contributors = Some(rank_contributors(&self.authors));
        self.phase = GitPhase::Done;
    }

    /// Takes in what the store yielded, and tells what to do next.
    pub fn advance(&mut self, event: &GitEvent) -> (action: GitAction)
        ensures
            final(self).deep_view() == old(self).deep_view().after(event.deep_view()),
            action == final(self).deep_view().next(),
    {
        match self.phase {
            GitPhase::Opening => match event {
                GitEvent::Remote(url) => {
                    let repository = Repository::new(url.clone());
                    self.phase = match repository.platform {
                        RepositoryPlatform::Github => GitPhase::Done,
                        _ => GitPhase::Walking,
                    };
                    self.record.name = copy_text(&repository.name);
                    self.record.repository = Some(repository);
                },
                GitEvent::Failed(_) => {
                    self.phase = GitPhase::Done;
                },
                _ => {},
            },
            GitPhase::Walking => match event {
                GitEvent::Commit { name: Some(name), email: Some(email) } => {
                    let author = CommitAuthor { name: name.clone(), email: email.clone() };
                    self.authors.push(author);
                    assert(self.authors.deep_view() =~= old(self).authors.deep_view().push(
                        author.deep_view(),
                    ));
                },
                GitEvent::Commit { .. } => {
                    self.close();
                },
                GitEvent::End => {
                    self.close();
                },
                GitEvent::Failed(_) => {
                    self.phase = GitPhase::Done;
                },
                GitEvent::Remote(_) => {},
            },
            GitPhase::Done => {},
        }
        self.next()
    }

    /// Ends the scan and hands out the record as far as it got.
    pub fn finish(self) -> (record: ConverterOutput)
        ensures
            record.deep_view() == self.deep_view().record,
    {
        self.record
    }
}

/// Once a scan is done, no event changes it.
pub proof fn lemma_done_is_final(scan: GitScanView, events: Seq<GitEventView>)
    requires
        scan.phase == GitPhase::Done,
    ensures
        scan.after_all(events) == scan,
    decreases events.len(),
{
    if events.len() > 0 {
        lemma_done_is_final(scan, events.drop_last());
    }
}

/// A run of events that begins with `first` is the run of the others,
/// taken from the scan that `first` leaves.
pub proof fn lemma_after_first(scan: GitScanView, first: GitEventView, rest: Seq<GitEventView>)
    ensures
        scan.after_all(seq![first] + rest) == scan.after(first).after_all(rest),
    decreases rest.len(),
{
    let events = seq![first] + rest;
    if rest.len() == 0 {
        assert(events.drop_last() =~= Seq::<GitEventView>::empty());
        assert(scan.after_all(events.drop_last()) == scan);
    } else {
        assert(events.drop_last() =~= seq![first] + rest.drop_last());
        assert(events.last() == rest.last());
        lemma_after_first(scan, first, rest.drop_last());
    }
}

/// Where the `origin` remote is on GitHub, the scan ends with the
/// repository set and without contributors, whatever the history holds.
pub proof fn lemma_github_remote_ends_scan(
    location: Seq<char>,
    url: Seq<char>,
    rest: Seq<GitEventView>,
)
    requires
        repository_of(url).platform == RepositoryPlatform::Github,
    ensures
        ({
            let end = GitScanView::start(location).after_all(seq![GitEventView::Remote(url)] + rest);
            &&& end.phase == GitPhase::Done
            &&& end.record.repository == Some(repository_of(url))
            &&& end.record.name == repository_of(url).name
            &&& end.record.contributors is None
        }),
{
    let start = GitScanView::start(location);
    lemma_after_first(start, GitEventView::Remote(url), rest);
    lemma_done_is_final(start.after(GitEventView::Remote(url)), rest);
}

/// No event touches the source that a scan's record names.
pub proof fn lemma_source_is_kept(scan: GitScanView, events: Seq<GitEventView>)
    ensures
        scan.after_all(events).record.source_config_file_path
            == scan.record.source_config_file_path,
    decreases events.len(),
{
    if events.len() > 0 {
        lemma_source_is_kept(scan, events.drop_last());
    }
}

} // verus!
