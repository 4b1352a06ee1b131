//! The walk over the parents of a segment.
use tantivy_common::BitSet;
use vstd::prelude::*;

use crate::error::Error;
use crate::members::{bits, bound, holds_documents, listed, Parents};
use crate::postings::{
    ascending, count_below, joined, window, DocId, Listing, Position, Posting, TERMINATED,
};
use crate::score::{aggregate, one, terms, Score, ScoreMode, ScoreTerm};
use crate::scorer::Scorer;

verus! {

/// A walk over the parents of a segment, each scored from the matching children
/// of its block, or by its own score.
///
/// The walk starts before the first parent.
pub struct BlockJoinScorer<S: Scorer + ?Sized = dyn Scorer> {
    child_scorer: Box<S>,
    parent_docs: BitSet,
    /// The parents' own scores, in the order of the parents.
    parent_scores: Vec<Score>,
    score_mode: ScoreMode,
    current_parent: DocId,
    /// How many parents precede the current one.
    parent_index: usize,
    previous_parent: Option<DocId>,
    current_score: Score,
    initialized: bool,
    has_more: bool,
    /// The children that the walk scores from.
    children: Ghost<Seq<Posting>>,
}

/// The document after the given one, or the first document of all.
spec fn after(previous: Option<DocId>) -> int {
    match previous {
        Some(doc) => doc + 1,
        None => 0,
    }
}

/// The walk over the parents, scored from the children, before its first step.
pub open spec fn fresh_walk(
    mode: ScoreMode,
    parents: Seq<Posting>,
    children: Seq<Posting>,
) -> Listing {
    Listing {
        postings: joined(mode, parents, children),
        position: if parents.len() == 0 {
            0
        } else {
            -1
        },
    }
}

/// The score that a walk over parents reports at a position without a parent: one
/// before the first step, and the score of the last parent past the end.
pub open spec fn resting_score(postings: Seq<Posting>, position: Position) -> ScoreTerm {
    if position < 0 || postings.len() == 0 {
        one()
    } else {
        postings.last().score
    }
}

/// The walk, gone on past all documents below `limit`.
pub open spec fn gone_past(walk: Listing, limit: int) -> Listing {
    Listing {
        postings: walk.postings,
        position: walk.position + count_below(walk.pending(), limit),
    }
}

/// The larger of two numbers.
spec fn larger(a: int, b: int) -> int {
    if a < b {
        b
    } else {
        a
    }
}

impl<S: Scorer + ?Sized> BlockJoinScorer<S> {
    /// The numbers of the parents, in ascending order.
    spec fn parent_list(&self) -> Seq<DocId> {
        listed(bits(self.parent_docs), bound(self.parent_docs) as int)
    }

    /// The parents with their own scores, in ascending order.
    pub closed spec fn parents(&self) -> Seq<Posting> {
        Parents { docs: self.parent_docs, scores: self.parent_scores }.postings()
    }

    /// Each parent has a score of its own.
    spec fn parents_inv(&self) -> bool {
        &&& holds_documents(self.parent_docs)
        &&& self.parent_scores@.len() == self.parent_list().len()
    }

    /// How the parents are scored.
    pub closed spec fn mode(&self) -> ScoreMode {
        self.score_mode
    }

    /// The children that the walk scores from.
    pub closed spec fn children(&self) -> Seq<Posting> {
        self.children@
    }

    /// The walk over the children.
    pub closed spec fn child_listing(&self) -> Listing {
        self.child_scorer.listing()
    }

    /// The walk has made its first step.
    pub closed spec fn started(&self) -> bool {
        self.initialized
    }

    /// How many parents are below the current one.
    spec fn rank(&self) -> int {
        listed(bits(self.parent_docs), self.current_parent as int).len() as int
    }

    /// The child walk has passed some of the children, all of them below `limit`.
    spec fn children_inv(&self, limit: int) -> bool {
        let rest = self.child_scorer.listing().pending();
        let passed = self.children@.len() - rest.len();
        &&& self.child_scorer.inv()
        &&& self.child_scorer.listing().valid()
        &&& self.child_scorer.listing().position >= 0
        &&& ascending(self.children@)
        &&& 0 <= passed
        &&& rest == self.children@.skip(passed)
        &&& forall|i: int| 0 <= i < passed ==> (#[trigger] self.children@[i]).doc < limit
    }

    /// The state of the walk agrees with the parent that it stands on.
    spec fn walk_inv(&self) -> bool {
        let parents = self.parents();
        if !self.has_more {
            &&& self.current_parent == TERMINATED
            &&& !self.initialized ==> self.previous_parent is None
            &&& if parents.len() == 0 {
                self.current_score@ == one()
            } else {
                &&& self.initialized
                &&& self.current_score@ == joined(
                    self.score_mode,
                    parents,
                    self.children@,
                ).last().score
            }
        } else if !self.initialized {
            &&& parents.len() > 0
            &&& self.current_parent == parents[0].doc
            &&& self.parent_index == 0
            &&& self.previous_parent is None
            &&& self.current_score@ == one()
        } else {
            &&& self.current_parent < bound(self.parent_docs)
            &&& bits(self.parent_docs).contains(self.current_parent)
            &&& self.parent_index == self.rank()
            &&& self.previous_parent == if self.rank() == 0 {
                None
            } else {
                Some(parents[self.rank() - 1].doc)
            }
            &&& self.current_score@ == joined(
                self.score_mode,
                parents,
                self.children@,
            )[self.rank()].score
        }
    }

    /// Finds the first parent from the given document on, or [`TERMINATED`].
    fn find_next_parent(&self, from: DocId) -> (next: DocId)
        requires
            holds_documents(self.parent_docs),
        ensures
            next == TERMINATED ==> forall|doc: u32|
                from <= doc < bound(self.parent_docs) ==> !(#[trigger] bits(
                    self.parent_docs,
                ).contains(doc)),
            next != TERMINATED ==> {
                &&& from <= next < bound(self.parent_docs)
                &&& bits(self.parent_docs).contains(next)
                &&& forall|doc: u32|
                    from <= doc < next ==> !(#[trigger] bits(self.parent_docs).contains(doc))
            },
    {
        let mut current: DocId = from;
        let max_val: u32 = self.parent_docs.max_value();
        while current < max_val
            invariant
                max_val == bound(self.parent_docs),
                from <= current,
                holds_documents(self.parent_docs),
                forall|doc: u32|
                    from <= doc < current ==> !(#[trigger] bits(self.parent_docs).contains(doc)),
            decreases max_val - current,
        {
            if self.parent_docs.contains(current) {
                return current;
            }
            current = current + 1;
        }
        TERMINATED
    }

    /// Scores the current parent from its own score and the children between the
    /// previous parent and it.
    fn collect_matches(&mut self)
        requires
            old(self).child_scorer.inv(),
            old(self).child_scorer.listing().valid(),
            old(self).child_scorer.listing().position >= 0,
            old(self).previous_parent matches Some(doc) ==> doc < TERMINATED,
            old(self).parent_index < old(self).parent_scores@.len(),
        ensures
            final(self).child_scorer.inv(),
            final(self).current_score@ == aggregate(
                old(self).score_mode,
                old(self).parent_scores@[old(self).parent_index as int]@,
                window(
                    old(self).child_scorer.listing().pending(),
                    after(old(self).previous_parent),
                    old(self).current_parent as int,
                ),
            ),
            final(self).child_scorer.listing() == gone_past(
                old(self).child_scorer.listing(),
                larger(after(old(self).previous_parent), old(self).current_parent as int),
            ),
            final(self).parent_docs == old(self).parent_docs,
            final(self).parent_scores == old(self).parent_scores,
            final(self).score_mode == old(self).score_mode,
            final(self).current_parent == old(self).current_parent,
            final(self).parent_index == old(self).parent_index,
            final(self).previous_parent == old(self).previous_parent,
            final(self).initialized == old(self).initialized,
            final(self).has_more == old(self).has_more,
            final(self).children == old(self).children,
    {
        let ghost before = self.child_scorer.listing();
        let ghost rest = before.pending();
        let mut child_scores: Vec<Score> = Vec::new();

        let start_doc: DocId = match self.previous_parent {
            Some(previous) => previous + 1,
            None => 0,
        };

        let ghost mut n: int = 0;
        let mut current_child: DocId = self.child_scorer.doc();
        while current_child != TERMINATED && current_child < start_doc
            invariant
                self.child_scorer.inv(),
                self.child_scorer.listing() == (Listing {
                    postings: before.postings,
                    position: before.position + n,
                }),
                before.valid(),
                before.position >= 0,
                rest == before.pending(),
                0 <= n <= rest.len(),
                current_child == self.child_scorer.listing().current(),
                forall|i: int| 0 <= i < n ==> (#[trigger] rest[i]).doc < start_doc,
                self.parent_docs == old(self).parent_docs,
                self.parent_scores == old(self).parent_scores,
                self.score_mode == old(self).score_mode,
                self.current_parent == old(self).current_parent,
                self.parent_index == old(self).parent_index,
                self.previous_parent == old(self).previous_parent,
                self.initialized == old(self).initialized,
                self.has_more == old(self).has_more,
                self.children == old(self).children,
            decreases rest.len() - n,
        {
            assert(rest[n] == before.postings[before.position + n]);
            current_child = self.child_scorer.advance();
            proof {
                n = n + 1;
            }
        }

        let end_doc: DocId = self.current_parent;
        let ghost skipped = n;
        proof {
            crate::postings::lemma_window_none(rest.take(n), start_doc as int, end_doc as int);
        }
        while current_child != TERMINATED && current_child < end_doc
            invariant
                self.child_scorer.inv(),
                self.child_scorer.listing() == (Listing {
                    postings: before.postings,
                    position: before.position + n,
                }),
                before.valid(),
                before.position >= 0,
                rest == before.pending(),
                0 <= skipped <= n <= rest.len(),
                current_child == self.child_scorer.listing().current(),
                current_child >= start_doc,
                forall|i: int| 0 <= i < skipped ==> (#[trigger] rest[i]).doc < start_doc,
                forall|i: int|
                    skipped <= i < n ==> start_doc <= (#[trigger] rest[i]).doc < end_doc,
                terms(child_scores@) == window(
                    rest.take(n),
                    start_doc as int,
                    end_doc as int,
                ),
                self.parent_docs == old(self).parent_docs,
                self.parent_scores == old(self).parent_scores,
                self.score_mode == old(self).score_mode,
                self.current_parent == old(self).current_parent,
                self.parent_index == old(self).parent_index,
                self.previous_parent == old(self).previous_parent,
                self.initialized == old(self).initialized,
                self.has_more == old(self).has_more,
                self.children == old(self).children,
            decreases rest.len() - n,
        {
            assert(rest[n] == before.postings[before.position + n]);
            let score = self.child_scorer.score();
            proof {
                crate::postings::lemma_window_push(
                    rest.take(n),
                    rest[n],
                    start_doc as int,
                    end_doc as int,
                );
                assert(rest.take(n).push(rest[n]) =~= rest.take(n + 1));
                assert(terms(child_scores@.push(score)) =~= terms(child_scores@).push(score@));
            }
            child_scores.push(score);
            current_child = self.child_scorer.advance();
            proof {
                if n + 1 < rest.len() {
                    assert(rest[n + 1] == before.postings[before.position + n + 1]);
                }
                n = n + 1;
            }
        }
        proof {
            let limit = larger(start_doc as int, end_doc as int);
            assert forall|i: int| n <= i < rest.len() implies (#[trigger] rest[i]).doc >= limit by {
                assert(rest[n] == before.postings[before.position + n]);
                assert(rest[i] == before.postings[before.position + i]);
            }
            crate::postings::lemma_count_below(rest, limit, n);
            assert(rest.take(n) + rest.skip(n) =~= rest);
            crate::postings::lemma_window_add(
                rest.take(n),
                rest.skip(n),
                start_doc as int,
                end_doc as int,
            );
            crate::postings::lemma_window_none(rest.skip(n), start_doc as int, end_doc as int);
            assert(window(rest, start_doc as int, end_doc as int) =~= window(
                rest.take(n),
                start_doc as int,
                end_doc as int,
            ));
        }

        let own_score = &self.parent_scores[self.parent_index];
        self.current_score = self.score_mode.aggregate(own_score, child_scores);
    }
}

impl<S: Scorer + ?Sized> BlockJoinScorer<S> {
    /// The children that the child walk has passed lie below `limit`, so a block
    /// that starts there is scored from the children still to come.
    proof fn lemma_rest_of_children(&self, limit: int, hi: int)
        requires
            self.children_inv(limit),
        ensures
            window(self.children@, limit, hi) == window(
                self.child_scorer.listing().pending(),
                limit,
                hi,
            ),
    {
        let rest = self.child_scorer.listing().pending();
        let passed = self.children@.len() - rest.len();
        let front = self.children@.take(passed);
        assert(front + rest =~= self.children@);
        crate::postings::lemma_window_add(front, rest, limit, hi);
        crate::postings::lemma_window_none(front, limit, hi);
        assert(window(front, limit, hi) + window(rest, limit, hi) =~= window(rest, limit, hi));
    }

    /// A child walk that goes on to `limit` has passed the children below it.
    proof fn lemma_passed(before: &Self, later: &Self, low: int, limit: int)
        requires
            before.children_inv(low),
            low <= limit,
            later.children == before.children,
            later.child_scorer.inv(),
            later.child_scorer.listing() == gone_past(before.child_scorer.listing(), limit),
        ensures
            later.children_inv(limit),
    {
        let walk = before.child_scorer.listing();
        let rest = walk.pending();
        let passed = before.children@.len() - rest.len();
        let n = count_below(rest, limit) as int;
        assert forall|i: int| 0 <= i < rest.len() implies rest[i] == #[trigger] walk.postings[
            walk.position + i] by {}
        assert(ascending(rest));
        crate::postings::lemma_below_first(rest, limit);
        let later_rest = later.child_scorer.listing().pending();
        assert(later_rest =~= rest.skip(n));
        assert(later_rest =~= before.children@.skip(passed + n));
        assert forall|i: int| 0 <= i < passed + n implies (#[trigger] before.children@[i]).doc
            < limit by {
            if i >= passed {
                assert(before.children@[i] == rest[i - passed]);
            }
        }
    }

    /// Joins the parents with the children that a walk still has to come, unless
    /// there is no such walk. Sets the child walk on its first match if it has not
    /// begun.
    pub fn over(
        child_scorer: Result<Box<S>, Error>,
        parents: Parents,
        score_mode: ScoreMode,
    ) -> (joined_scorer: Result<BlockJoinScorer<S>, Error>)
        requires
            child_scorer matches Ok(child) ==> child.inv() && child.listing().valid(),
            parents.valid(),
        ensures
            match child_scorer {
                Err(error) => joined_scorer == Err::<BlockJoinScorer<S>, Error>(error),
                Ok(child) => {
                    &&& joined_scorer matches Ok(scorer)
                    &&& scorer.inv()
                    &&& scorer.listing().valid()
                    &&& scorer.listing() == fresh_walk(
                        score_mode,
                        parents.postings(),
                        child.listing().pending(),
                    )
                    &&& forall|position: Position| #[trigger]
                        scorer.idle_score(position) == resting_score(
                            scorer.listing().postings,
                            position,
                        )
                    &&& forall|position: Position| #[trigger]
                        scorer.hint(position) == parents.postings().len()
                    &&& scorer.mode() == score_mode
                    &&& scorer.parents() == parents.postings()
                    &&& scorer.children() == child.listing().pending()
                    &&& scorer.child_listing() == child.listing().begun()
                    &&& !scorer.started()
                },
            },
    {
        match child_scorer {
            Err(error) => Err(error),
            Ok(mut child_scorer) => {
                let ghost children = child_scorer.listing().pending();
                if child_scorer.doc() == TERMINATED {
                    child_scorer.advance();
                }
                let mut scorer = BlockJoinScorer {
                    child_scorer,
                    parent_docs: parents.docs,
                    parent_scores: parents.scores,
                    score_mode,
                    current_parent: TERMINATED,
                    parent_index: 0,
                    previous_parent: None,
                    current_score: Score::one(),
                    initialized: false,
                    has_more: false,
                    children: Ghost(children),
                };
                let first_parent: DocId = scorer.find_next_parent(0);
                scorer.current_parent = first_parent;
                scorer.has_more = first_parent != TERMINATED;
                proof {
                    let set = bits(parents.docs);
                    let limit = bound(parents.docs) as int;
                    assert(ascending(children));
                    assert(children.skip(0) =~= children);
                    assert(scorer.child_scorer.listing().pending() =~= children);
                    if first_parent != TERMINATED {
                        crate::members::lemma_listed_gap(set, 0, first_parent as int);
                        crate::members::lemma_listed_rank(set, first_parent, limit);
                    } else {
                        crate::members::lemma_listed_gap(set, 0, limit);
                    }
                    crate::members::lemma_listed_len(set, limit);
                    scorer.lemma_listing_valid();
                }
                Ok(scorer)
            },
        }
    }

    /// Starts a walk that has not been started, as its first step would: goes to
    /// the first parent and scores it. The child walk has begun by then.
    pub fn initialize(&mut self)
        requires
            old(self).inv(),
        ensures
            final(self).inv(),
            final(self).listing().valid(),
            final(self).mode() == old(self).mode(),
            final(self).parents() == old(self).parents(),
            final(self).children() == old(self).children(),
            final(self).started(),
            old(self).started() ==> *final(self) == *old(self),
            !old(self).started() ==> {
                &&& final(self).listing() == (Listing {
                    postings: old(self).listing().postings,
                    position: 0,
                })
                &&& final(self).child_listing() == if old(self).parents().len() == 0 {
                    old(self).child_listing()
                } else {
                    gone_past(old(self).child_listing(), old(self).parents()[0].doc as int)
                }
            },
    {
        let ghost set = bits(self.parent_docs);
        let ghost limit = bound(self.parent_docs) as int;
        let ghost parents = self.parents();
        if !self.initialized {
            let first_parent: DocId = self.find_next_parent(0);
            if first_parent != TERMINATED {
                self.current_parent = first_parent;
                self.parent_index = 0;
                self.has_more = true;
                let ghost before = *self;
                proof {
                    crate::members::lemma_listed_gap(set, 0, first_parent as int);
                    crate::members::lemma_listed_rank(set, first_parent, limit);
                }
                self.collect_matches();
                proof {
                    before.lemma_rest_of_children(0, first_parent as int);
                    Self::lemma_passed(&before, self, 0, first_parent as int);
                }
            } else {
                proof {
                    crate::members::lemma_listed_gap(set, 0, limit);
                }
                self.has_more = false;
                self.current_parent = TERMINATED;
            }
            self.initialized = true;
        }
        proof {
            self.lemma_listing_valid();
        }
    }

    /// The walk over the parents is a proper walk.
    proof fn lemma_listing_valid(&self)
        requires
            self.inv(),
        ensures
            self.listing().valid(),
    {
        let set = bits(self.parent_docs);
        let limit = bound(self.parent_docs) as int;
        crate::members::lemma_listed(set, limit);
        if self.has_more && self.initialized {
            crate::members::lemma_listed_rank(set, self.current_parent, limit);
        }
    }
}

impl<S: Scorer + ?Sized> Scorer for BlockJoinScorer<S> {
    closed spec fn listing(&self) -> Listing {
        let postings = joined(self.score_mode, self.parents(), self.children@);
        Listing {
            postings,
            position: if !self.has_more {
                postings.len() as int
            } else if !self.initialized {
                -1
            } else {
                self.rank()
            },
        }
    }

    closed spec fn inv(&self) -> bool {
        &&& self.parents_inv()
        &&& self.walk_inv()
        &&& self.children_inv(
            if !self.initialized {
                0
            } else {
                self.current_parent as int
            },
        )
    }

    open spec fn idle_score(&self, position: Position) -> ScoreTerm {
        resting_score(self.listing().postings, position)
    }

    open spec fn hint(&self, position: Position) -> u32 {
        self.listing().postings.len() as u32
    }

    fn advance(&mut self) -> (doc: DocId)
        ensures
            final(self).mode() == old(self).mode(),
            final(self).parents() == old(self).parents(),
            final(self).children() == old(self).children(),
            final(self).started() == (old(self).started() || old(self).parents().len() > 0),
            final(self).child_listing() == if final(self).listing().on_document() {
                gone_past(old(self).child_listing(), final(self).listing().current() as int)
            } else {
                old(self).child_listing()
            },
    {
        if !self.has_more {
            return TERMINATED;
        }
        let ghost set = bits(self.parent_docs);
        let ghost limit = bound(self.parent_docs) as int;
        let ghost parents = self.parents();
        if !self.initialized {
            self.initialized = true;
            self.previous_parent = None;
            let ghost before = *self;
            self.collect_matches();
            proof {
                let end = self.current_parent as int;
                crate::members::lemma_listed(set, limit);
                crate::members::lemma_listed_rank(set, self.current_parent, limit);
                assert(self.rank() == 0) by {
                    if self.rank() > 0 {
                        assert(self.parent_list()[0] < self.parent_list()[self.rank()]);
                    }
                }
                before.lemma_rest_of_children(0, end);
                Self::lemma_passed(&before, self, 0, end);
            }
            return self.current_parent;
        }
        let ghost rank = self.rank();
        proof {
            crate::members::lemma_listed_rank(set, self.current_parent, limit);
        }
        let next_parent: DocId = self.find_next_parent(self.current_parent + 1);
        if next_parent == TERMINATED {
            proof {
                crate::members::lemma_listed_gap(set, self.current_parent + 1, limit);
                crate::members::lemma_listed(set, limit);
                assert(parents.len() == rank + 1);
            }
            let ghost last = *self;
            self.has_more = false;
            self.current_parent = TERMINATED;
            assert(self.children_inv(last.current_parent as int));
            return TERMINATED;
        }
        proof {
            crate::members::lemma_listed_gap(set, self.current_parent + 1, next_parent as int);
            crate::members::lemma_listed_rank(set, next_parent, limit);
        }
        let ghost earlier = *self;
        self.previous_parent = Some(self.current_parent);
        self.current_parent = next_parent;
        assert(self.parent_index + 1 < self.parent_scores.len());
        self.parent_index = self.parent_index + 1;
        let ghost before = *self;
        self.collect_matches();
        proof {
            let low = earlier.current_parent as int;
            assert(before.children_inv(low));
            assert(before.children_inv(low + 1));
            before.lemma_rest_of_children(low + 1, next_parent as int);
            Self::lemma_passed(&before, self, low + 1, next_parent as int);
        }
        self.current_parent
    }

    fn doc(&self) -> (doc: DocId) {
        proof {
            if self.has_more && self.initialized {
                crate::members::lemma_listed_rank(
                    bits(self.parent_docs),
                    self.current_parent,
                    bound(self.parent_docs) as int,
                );
            }
        }
        if !self.initialized {
            TERMINATED
        } else if self.has_more {
            self.current_parent
        } else {
            TERMINATED
        }
    }

    fn score(&mut self) -> (score: Score)
        ensures
            *final(self) == *old(self),
    {
        proof {
            if self.has_more && self.initialized {
                crate::members::lemma_listed_rank(
                    bits(self.parent_docs),
                    self.current_parent,
                    bound(self.parent_docs) as int,
                );
            }
        }
        self.current_score.clone()
    }

    fn size_hint(&self) -> (hint: u32)
        ensures
            hint == self.listing().postings.len(),
    {
        proof {
            crate::members::lemma_listed_len(
                bits(self.parent_docs),
                bound(self.parent_docs) as int,
            );
        }
        self.parent_docs.len() as u32
    }
}

} // verus!
