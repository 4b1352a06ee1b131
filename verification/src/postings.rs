//! The mathematical model of a walk over the matches in a segment.
use vstd::prelude::*;

use crate::score::{aggregate, ScoreMode, ScoreTerm};

verus! {

/// Number of a document within its segment.
pub type DocId = u32;

/// Stands for a document number where there is no document (any more).
pub const TERMINATED: DocId = 0x7fff_ffff;

/// A matching document with its score.
pub struct Posting {
    pub doc: DocId,
    pub score: ScoreTerm,
}

/// Documents stand in ascending order, each of them once, and none is
/// [`TERMINATED`].
pub open spec fn ascending(postings: Seq<Posting>) -> bool {
    &&& forall|i: int, j: int|
        0 <= i < j < postings.len() ==> (#[trigger] postings[i]).doc < (
        #[trigger] postings[j]).doc
    &&& forall|i: int| 0 <= i < postings.len() ==> (#[trigger] postings[i]).doc < TERMINATED
}

/// All documents are below the bound.
pub open spec fn below(postings: Seq<Posting>, bound: int) -> bool {
    forall|i: int| 0 <= i < postings.len() ==> (#[trigger] postings[i]).doc < bound
}

/// The document numbers of the postings.
pub open spec fn docs(postings: Seq<Posting>) -> Seq<DocId> {
    postings.map_values(|posting: Posting| posting.doc)
}

/// How far a walk has come: before the first match (-1), on a match (its index), or
/// past the last one (the number of matches).
pub type Position = int;

/// All matches of a walk, and how far the walk has come.
pub struct Listing {
    pub postings: Seq<Posting>,
    pub position: Position,
}

impl Listing {
    pub open spec fn valid(self) -> bool {
        &&& ascending(self.postings)
        &&& -1 <= self.position <= self.postings.len()
    }

    /// The walk stands on a document.
    pub open spec fn on_document(self) -> bool {
        0 <= self.position < self.postings.len()
    }

    /// The document that the walk stands on, if any.
    pub open spec fn current(self) -> DocId {
        if self.on_document() {
            self.postings[self.position].doc
        } else {
            TERMINATED
        }
    }

    /// The walk, one step on.
    pub open spec fn advanced(self) -> Listing {
        Listing {
            postings: self.postings,
            position: if self.position < self.postings.len() {
                self.position + 1
            } else {
                self.position
            },
        }
    }

    /// The walk, set on its first match if it has not begun.
    pub open spec fn begun(self) -> Listing {
        if self.position < 0 {
            self.advanced()
        } else {
            self
        }
    }

    /// The matches still to come, the current one first.
    pub open spec fn pending(self) -> Seq<Posting> {
        if self.position < 0 {
            self.postings
        } else {
            self.postings.skip(self.position)
        }
    }
}

/// Scores of the children with a number from `lo` on and below `hi`.
pub open spec fn window(children: Seq<Posting>, lo: int, hi: int) -> Seq<ScoreTerm> {
    children.filter(|child: Posting| lo <= child.doc < hi).map_values(
        |child: Posting| child.score,
    )
}

/// The first document of the block that the `i`-th parent closes.
pub open spec fn block_start(parents: Seq<DocId>, i: int) -> int {
    if i == 0 {
        0
    } else {
        parents[i - 1] + 1
    }
}

/// Scores of the matching children in the block that the `i`-th parent closes.
pub open spec fn block_scores(parents: Seq<DocId>, children: Seq<Posting>, i: int) -> Seq<
    ScoreTerm,
> {
    window(children, block_start(parents, i), parents[i] as int)
}

/// Every parent, scored from its own score and the matching children of its block.
pub open spec fn joined(mode: ScoreMode, parents: Seq<Posting>, children: Seq<Posting>) -> Seq<
    Posting,
> {
    Seq::new(
        parents.len(),
        |i: int|
            Posting {
                doc: parents[i].doc,
                score: aggregate(
                    mode,
                    parents[i].score,
                    block_scores(docs(parents), children, i),
                ),
            },
    )
}

/// How many of the postings are below `limit`.
pub open spec fn count_below(postings: Seq<Posting>, limit: int) -> nat {
    postings.filter(|posting: Posting| posting.doc < limit).len()
}

pub(crate) proof fn lemma_filter_none<A>(s: Seq<A>, pred: spec_fn(A) -> bool)
    requires
        forall|i: int| 0 <= i < s.len() ==> !pred(#[trigger] s[i]),
    ensures
        s.filter(pred) == Seq::<A>::empty(),
    decreases s.len(),
{
    reveal(Seq::filter);
    if s.len() > 0 {
        assert(!pred(s[s.len() - 1]));
        assert forall|i: int| 0 <= i < s.drop_last().len() implies !pred(
            #[trigger] s.drop_last()[i],
        ) by {
            assert(!pred(s[i]));
        }
        lemma_filter_none(s.drop_last(), pred);
    }
}

pub(crate) proof fn lemma_filter_all<A>(s: Seq<A>, pred: spec_fn(A) -> bool)
    requires
        forall|i: int| 0 <= i < s.len() ==> pred(#[trigger] s[i]),
    ensures
        s.filter(pred) == s,
    decreases s.len(),
{
    reveal(Seq::filter);
    if s.len() > 0 {
        assert(pred(s[s.len() - 1]));
        assert forall|i: int| 0 <= i < s.drop_last().len() implies pred(
            #[trigger] s.drop_last()[i],
        ) by {
            assert(pred(s[i]));
        }
        lemma_filter_all(s.drop_last(), pred);
        assert(s.drop_last().push(s.last()) =~= s);
    }
}

/// Children outside the range contribute no score.
pub proof fn lemma_window_none(children: Seq<Posting>, lo: int, hi: int)
    requires
        forall|i: int|
            0 <= i < children.len() ==> !(lo <= (#[trigger] children[i]).doc < hi),
    ensures
        window(children, lo, hi) == Seq::<ScoreTerm>::empty(),
{
    lemma_filter_none(children, |child: Posting| lo <= child.doc < hi);
}

/// The scores of two runs of children follow one another.
pub proof fn lemma_window_add(a: Seq<Posting>, b: Seq<Posting>, lo: int, hi: int)
    ensures
        window(a + b, lo, hi) == window(a, lo, hi) + window(b, lo, hi),
{
    let pred = |child: Posting| lo <= child.doc < hi;
    let score = |child: Posting| child.score;
    Seq::filter_distributes_over_add(a, b, pred);
    assert((a.filter(pred) + b.filter(pred)).map_values(score) =~= a.filter(pred).map_values(score)
        + b.filter(pred).map_values(score));
}

/// A child in the range adds its score at the end.
pub proof fn lemma_window_push(children: Seq<Posting>, child: Posting, lo: int, hi: int)
    requires
        lo <= child.doc < hi,
    ensures
        window(children.push(child), lo, hi) == window(children, lo, hi).push(child.score),
{
    let pred = |child: Posting| lo <= child.doc < hi;
    let score = |child: Posting| child.score;
    let single = seq![child];
    lemma_window_add(children, single, lo, hi);
    assert(children + single =~= children.push(child));
    lemma_filter_all(single, pred);
    assert(window(single, lo, hi) =~= seq![child.score]);
}

/// Where the postings below the limit come first, their number is where the
/// others begin.
pub proof fn lemma_count_below(postings: Seq<Posting>, limit: int, n: int)
    requires
        0 <= n <= postings.len(),
        forall|i: int| 0 <= i < n ==> (#[trigger] postings[i]).doc < limit,
        forall|i: int| n <= i < postings.len() ==> (#[trigger] postings[i]).doc >= limit,
    ensures
        count_below(postings, limit) == n,
{
    let pred = |posting: Posting| posting.doc < limit;
    let front = postings.take(n);
    let back = postings.skip(n);
    assert(front + back =~= postings);
    Seq::filter_distributes_over_add(front, back, pred);
    lemma_filter_all(front, pred);
    lemma_filter_none(back, pred);
}

/// In ascending postings, those below a limit come first.
pub proof fn lemma_below_first(postings: Seq<Posting>, limit: int)
    requires
        ascending(postings),
    ensures
        count_below(postings, limit) <= postings.len(),
        forall|i: int|
            0 <= i < count_below(postings, limit) ==> (#[trigger] postings[i]).doc < limit,
        forall|i: int|
            count_below(postings, limit) <= i < postings.len() ==> (#[trigger] postings[i]).doc
                >= limit,
{
    let n = lemma_split_point(postings, limit);
    lemma_count_below(postings, limit, n);
}

/// Finds where the postings that are not below the limit begin.
proof fn lemma_split_point(postings: Seq<Posting>, limit: int) -> (n: int)
    requires
        ascending(postings),
    ensures
        0 <= n <= postings.len(),
        forall|i: int| 0 <= i < n ==> (#[trigger] postings[i]).doc < limit,
        forall|i: int| n <= i < postings.len() ==> (#[trigger] postings[i]).doc >= limit,
    decreases postings.len(),
{
    if postings.len() == 0 {
        0
    } else if postings.last().doc < limit {
        postings.len() as int
    } else {
        let front = postings.drop_last();
        let n = lemma_split_point(front, limit);
        assert forall|i: int| 0 <= i < n implies (#[trigger] postings[i]).doc < limit by {
            assert(front[i].doc < limit);
        }
        assert forall|i: int| n <= i < postings.len() implies (#[trigger] postings[i]).doc
            >= limit by {
            if i < front.len() {
                assert(front[i].doc >= limit);
            }
        }
        n
    }
}

/// There are no more documents than numbers below their bound.
pub proof fn lemma_bounded_len(postings: Seq<Posting>, bound: int)
    requires
        ascending(postings),
        below(postings, bound),
        0 <= bound,
    ensures
        postings.len() <= bound,
    decreases postings.len(),
{
    if postings.len() > 0 {
        let front = postings.drop_last();
        let last = postings.last();
        assert forall|i: int| 0 <= i < front.len() implies (#[trigger] front[i]).doc
            < last.doc by {
            assert(postings[i].doc < postings[postings.len() - 1].doc);
        }
        lemma_bounded_len(front, last.doc as int);
        assert(postings[postings.len() - 1].doc < bound);
    }
}

} // verus!
