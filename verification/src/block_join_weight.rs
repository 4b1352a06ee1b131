//! A block join that is ready to run on a segment.
use tantivy_common::BitSet;
use vstd::prelude::*;

use crate::block_join_scorer::{fresh_walk, resting_score, BlockJoinScorer};
use crate::error::Error;
use crate::members::{bits, bound, listed, tally, Parents};
use crate::postings::{
    ascending, below, docs, DocId, Listing, Position, Posting, TERMINATED,
};
use crate::score::{one, zero, Score, ScoreMode, ScoreTerm};
use crate::scorer::{EmptyScorer, Scorer};
use crate::weight::{outcome_of, reported, Outcome, SegmentReader, Weight, WeightModel};

verus! {

/// A block join that is ready to run on a segment.
pub struct BlockJoinWeight<C: Weight + ?Sized = dyn Weight, P: Weight + ?Sized = dyn Weight> {
    pub child_weight: Box<C>,
    pub parents_weight: Box<P>,
    pub score_mode: ScoreMode,
}

/// The walk over no parents.
pub open spec fn no_parents() -> Listing {
    Listing { postings: Seq::empty(), position: 0 }
}

/// What comes of a join where the walk over the parents has been opened, and
/// `child` came of opening the walk over the children.
pub open spec fn join_walks(mode: ScoreMode, parents: Listing, child: Outcome) -> Outcome {
    match child {
        Err(error) => Err(error),
        Ok(children) => Ok(fresh_walk(mode, parents.pending(), children.pending())),
    }
}

/// What can come of a join: the parents are opened first, and the children only
/// where there is a parent.
pub open spec fn join_allows(
    mode: ScoreMode,
    parents: WeightModel,
    child: WeightModel,
    reader: SegmentReader,
    boost: ScoreTerm,
    outcome: Outcome,
) -> bool {
    ||| exists|error: Error| #[trigger]
        parents.allows(reader, boost, Err(error)) && outcome == Err::<Listing, Error>(error)
    ||| exists|walk: Listing| #[trigger]
        parents.allows(reader, boost, Ok(walk)) && if walk.pending().len() == 0 {
            outcome == Ok::<Listing, Error>(no_parents())
        } else {
            exists|children: Outcome| #[trigger]
                child.allows(reader, boost, children) && outcome == join_walks(
                    mode,
                    walk,
                    children,
                )
        }
}

/// The behaviour of a join, from that of its two sides.
pub open spec fn joined_model(
    mode: ScoreMode,
    parents: WeightModel,
    child: WeightModel,
) -> WeightModel {
    WeightModel {
        outcomes: |reader: SegmentReader, boost: ScoreTerm, outcome: Outcome|
            join_allows(mode, parents, child, reader, boost, outcome),
    }
}

/// Reads a walk to its end, from its first match if it has not begun, and keeps
/// the documents that it meets, with their scores.
pub fn collect_parents<P: Scorer + ?Sized>(
    parents_scorer: &mut Box<P>,
    max_doc: DocId,
) -> (parents: Parents)
    requires
        old(parents_scorer).inv(),
        old(parents_scorer).listing().valid(),
        below(old(parents_scorer).listing().pending(), max_doc as int),
        max_doc <= u32::MAX - 63,
    ensures
        final(parents_scorer).inv(),
        final(parents_scorer).listing() == (Listing {
            postings: old(parents_scorer).listing().postings,
            position: old(parents_scorer).listing().postings.len() as int,
        }),
        parents.valid(),
        bound(parents.docs) == max_doc,
        parents.postings() == old(parents_scorer).listing().pending(),
{
    let ghost before = parents_scorer.listing().begun();
    let ghost rest = before.pending();
    let mut parent_docs = BitSet::with_max_value(max_doc);
    let mut parent_scores: Vec<Score> = Vec::new();
    let ghost mut n: int = 0;
    proof {
        crate::members::lemma_listed_gap(bits(parent_docs), 0, max_doc as int);
        assert(docs(rest.take(0)) =~= Seq::<DocId>::empty());
        assert(rest =~= parents_scorer.listing().pending());
    }
    let mut parent_doc: DocId = parents_scorer.doc();
    if parent_doc == TERMINATED {
        parent_doc = parents_scorer.advance();
    }
    while parent_doc != TERMINATED
        invariant
            parents_scorer.inv(),
            parents_scorer.listing() == (Listing {
                postings: before.postings,
                position: before.position + n,
            }),
            before.valid(),
            before.position >= 0,
            rest == before.pending(),
            0 <= n <= rest.len(),
            below(rest, max_doc as int),
            parent_doc == parents_scorer.listing().current(),
            bound(parent_docs) == max_doc,
            tally(parent_docs) == n,
            listed(bits(parent_docs), max_doc as int) == docs(rest.take(n)),
            forall|doc: u32| #[trigger]
                bits(parent_docs).contains(doc) ==> n > 0 && doc <= rest[n - 1].doc < TERMINATED,
            parent_scores@.len() == n,
            forall|i: int| 0 <= i < n ==> (#[trigger] parent_scores@[i])@ == rest[i].score,
        decreases rest.len() - n,
    {
        proof {
            assert(rest[n] == before.postings[before.position + n]);
            if n > 0 {
                assert(rest[n - 1] == before.postings[before.position + n - 1]);
            }
            crate::members::lemma_listed_insert(bits(parent_docs), parent_doc, max_doc as int);
            assert(docs(rest.take(n + 1)) =~= docs(rest.take(n)).push(rest[n].doc));
        }
        parent_docs.insert(parent_doc);
        parent_scores.push(parents_scorer.score());
        parent_doc = parents_scorer.advance();
        proof {
            n = n + 1;
        }
    }
    let parents = Parents { docs: parent_docs, scores: parent_scores };
    proof {
        assert(rest.take(n) =~= rest);
        assert forall|i: int| 0 <= i < rest.len() implies #[trigger] parents.postings()[i]
            == rest[i] by {
            assert(docs(rest)[i] == rest[i].doc);
        }
        assert(parents.postings() =~= rest);
    }
    parents
}

impl<C: Weight + ?Sized, P: Weight + ?Sized> BlockJoinWeight<C, P> {
    /// Joins a weight over children, the first of the two sides, with one over
    /// parents.
    pub fn new(sides: (Box<C>, Box<P>), score_mode: ScoreMode) -> (weight: BlockJoinWeight<C, P>)
        ensures
            weight.child_weight == sides.0,
            weight.parents_weight == sides.1,
            weight.score_mode == score_mode,
            weight.model() == joined_model(score_mode, sides.1.model(), sides.0.model()),
    {
        let (child_weight, parents_weight) = sides;
        BlockJoinWeight { child_weight, parents_weight, score_mode }
    }

    /// Opens the walk over the parents in the segment, or none where there is no
    /// parent.
    pub fn open(&self, reader: &SegmentReader, boost: &Score) -> (opened: Result<
        Option<BlockJoinScorer<dyn Scorer>>,
        Error,
    >)
        requires
            reader.valid(),
        ensures
            match opened {
                Ok(Some(walk)) => {
                    &&& walk.inv()
                    &&& walk.listing().valid()
                    &&& walk.listing().postings.len() > 0
                    &&& walk.listing().position == -1
                    &&& forall|position: Position| #[trigger]
                        walk.idle_score(position) == resting_score(
                            walk.listing().postings,
                            position,
                        )
                    &&& forall|position: Position| #[trigger]
                        walk.hint(position) == walk.listing().postings.len()
                    &&& below(walk.listing().postings, reader.max_doc as int)
                    &&& self.model().allows(*reader, boost@, Ok(walk.listing()))
                },
                Ok(None) => self.model().allows(*reader, boost@, Ok(no_parents())),
                Err(error) => self.model().allows(*reader, boost@, Err(error)),
            },
    {
        let opened_parents = self.parents_weight.scorer(reader, boost);
        match opened_parents {
            Err(error) => Err(error),
            Ok(mut parents_scorer) => {
                let ghost walk = parents_scorer.listing();
                proof {
                    assert forall|i: int| 0 <= i < walk.pending().len() implies (
                    #[trigger] walk.pending()[i]).doc < reader.max_doc by {
                        assert(walk.pending()[i] == walk.postings[walk.begun().position + i]);
                    }
                }
                let parents = collect_parents(&mut parents_scorer, reader.max_doc);
                if parents.docs.len() == 0 {
                    proof {
                        crate::members::lemma_listed_len(
                            bits(parents.docs),
                            bound(parents.docs) as int,
                        );
                    }
                    return Ok(None);
                }
                let opened_children = self.child_weight.scorer(reader, boost);
                let ghost children = outcome_of(opened_children);
                let joined_walk = BlockJoinScorer::over(
                    opened_children,
                    parents,
                    self.score_mode,
                );
                match joined_walk {
                    Err(error) => {
                        proof {
                            assert(self.child_weight.model().allows(*reader, boost@, children));
                        }
                        Err(error)
                    },
                    Ok(scorer) => {
                        proof {
                            assert(self.child_weight.model().allows(*reader, boost@, children));
                            lemma_fresh_walk_below(
                                self.score_mode,
                                walk.pending(),
                                children->Ok_0.pending(),
                                reader.max_doc as int,
                            );
                        }
                        Ok(Some(scorer))
                    },
                }
            },
        }
    }
}

/// A walk over parents meets no other documents than the parents.
proof fn lemma_fresh_walk_below(
    mode: ScoreMode,
    parents: Seq<Posting>,
    children: Seq<Posting>,
    limit: int,
)
    requires
        ascending(parents),
        below(parents, limit),
    ensures
        fresh_walk(mode, parents, children).valid(),
        below(fresh_walk(mode, parents, children).postings, limit),
{
}

impl<C: Weight + ?Sized, P: Weight + ?Sized> Weight for BlockJoinWeight<C, P> {
    open spec fn model(&self) -> WeightModel {
        joined_model(self.score_mode, self.parents_weight.model(), self.child_weight.model())
    }

    #[verifier::spinoff_prover]
    fn scorer(&self, reader: &SegmentReader, boost: &Score) -> (scorer: Result<
        Box<dyn Scorer>,
        Error,
    >)
        ensures
            scorer matches Ok(walk) ==> {
                &&& forall|position: Position| #[trigger]
                    walk.hint(position) == walk.listing().postings.len()
                &&& forall|position: Position| #[trigger]
                    walk.idle_score(position) == if walk.listing().postings.len() == 0 {
                        zero()
                    } else {
                        resting_score(walk.listing().postings, position)
                    }
            },
    {
        match self.open(reader, boost) {
            Err(error) => Err(error),
            Ok(None) => {
                let walk: Box<dyn Scorer> = Box::new(EmptyScorer);
                let scorer = Ok(walk);
                scorer
            },
            Ok(Some(walk)) => {
                let walk: Box<dyn Scorer> = Box::new(walk);
                let scorer = Ok(walk);
                scorer
            },
        }
    }

    fn count(&self, reader: &SegmentReader) -> (count: Result<u32, Error>) {
        let boost = Score::one();
        match self.open(reader, &boost) {
            Err(error) => Err(error),
            Ok(None) => Ok(0),
            Ok(Some(mut walk)) => {
                let ghost start = walk.listing();
                let mut count: u32 = 0;
                proof {
                    crate::postings::lemma_bounded_len(start.postings, reader.max_doc as int);
                }
                let mut doc: DocId = walk.advance();
                while doc != TERMINATED
                    invariant
                        walk.inv(),
                        start.valid(),
                        walk.listing() == (Listing {
                            postings: start.postings,
                            position: count as int,
                        }),
                        doc == walk.listing().current(),
                        count <= start.postings.len() <= u32::MAX,
                    decreases start.postings.len() - count,
                {
                    count = count + 1;
                    doc = walk.advance();
                }
                Ok(count)
            },
        }
    }

    fn for_each(&self, reader: &SegmentReader) -> (hits: Result<Vec<(DocId, Score)>, Error>) {
        let boost = Score::one();
        let mut hits: Vec<(DocId, Score)> = Vec::new();
        match self.open(reader, &boost) {
            Err(error) => Err(error),
            Ok(None) => {
                assert(reported(hits@) =~= no_parents().postings);
                Ok(hits)
            },
            Ok(Some(mut walk)) => {
                let ghost start = walk.listing();
                let mut doc: DocId = walk.advance();
                while doc != TERMINATED
                    invariant
                        walk.inv(),
                        start.valid(),
                        walk.listing() == (Listing {
                            postings: start.postings,
                            position: hits@.len() as int,
                        }),
                        doc == walk.listing().current(),
                        hits@.len() <= start.postings.len(),
                        reported(hits@) == start.postings.take(hits@.len() as int),
                    decreases start.postings.len() - hits@.len(),
                {
                    let score = walk.score();
                    proof {
                        let n = hits@.len() as int;
                        assert(reported(hits@.push((doc, score))) =~= reported(hits@).push(
                            start.postings[n],
                        ));
                        assert(start.postings.take(n).push(start.postings[n])
                            =~= start.postings.take(n + 1));
                    }
                    hits.push((doc, score));
                    doc = walk.advance();
                }
                assert(start.postings.take(hits@.len() as int) =~= start.postings);
                Ok(hits)
            },
        }
    }
}

} // verus!
