//! The join of a query over children with a query over parents.
use vstd::prelude::*;

use crate::block_join_scorer::BlockJoinScorer;
use crate::block_join_weight::{joined_model, no_parents, BlockJoinWeight};
use crate::error::Error;
use crate::postings::{docs, DocId, Listing, TERMINATED};
use crate::query::{
    visits, DocAddress, EnableScoring, Explanation, Query, QueryModel, Readied, Scoring, Searcher,
    Term,
};
use crate::score::{one, zero, Score, ScoreMode, ScoreTerm};
use crate::scorer::Scorer;
use crate::weight::{SegmentReader, Weight, WeightModel};

verus! {

/// `BlockJoinQuery` performs a join from child documents to parent documents,
/// based on a block structure: child documents are indexed before their parent.
/// The `parents_filter` identifies the parent documents in each segment.
pub struct BlockJoinQuery<C: Query + ?Sized = dyn Query, P: Query + ?Sized = dyn Query> {
    child_query: Box<C>,
    parents_filter: Box<P>,
    score_mode: ScoreMode,
}

/// What can come of making a join ready to run: its children are made ready
/// first.
pub open spec fn join_readies(
    mode: ScoreMode,
    child: QueryModel,
    parents: QueryModel,
    scoring: Scoring,
    outcome: Readied,
) -> bool {
    ||| exists|error: Error| #[trigger]
        child.allows(scoring, Err(error)) && outcome == Err::<WeightModel, Error>(error)
    ||| exists|child_weight: WeightModel| #[trigger]
        child.allows(scoring, Ok(child_weight)) && {
            ||| exists|error: Error| #[trigger]
                parents.allows(scoring, Err(error)) && outcome == Err::<WeightModel, Error>(error)
            ||| exists|parents_weight: WeightModel| #[trigger]
                parents.allows(scoring, Ok(parents_weight)) && outcome == Ok::<WeightModel, Error>(
                    joined_model(mode, parents_weight, child_weight),
                )
        }
}

/// A join, written out, from its two sides written out.
pub open spec fn join_text(mode: ScoreMode, child: Seq<char>, parents: Seq<char>) -> Seq<char> {
    "BlockJoinQuery(child_query: "@ + child + ", parents_filter: "@ + parents + ", score_mode: "@
        + mode.spec_name()@ + ")"@
}

/// The behaviour of a join, from that of its two sides.
pub open spec fn joined_query(
    mode: ScoreMode,
    child: QueryModel,
    parents: QueryModel,
) -> QueryModel {
    QueryModel {
        outcomes: |scoring: Scoring, outcome: Readied|
            join_readies(mode, child, parents, scoring, outcome),
        terms: child.terms + parents.terms,
        text: join_text(mode, child.text, parents.text),
    }
}

/// The score that a fresh walk gives to a document: zero where the walk does not
/// meet it. At [`TERMINATED`], where the walk stands at first, it is the score that
/// the walk has there: one, or zero where there is no parent.
pub open spec fn score_of(walk: Listing, doc: DocId) -> ScoreTerm {
    if doc == TERMINATED {
        if walk.postings.len() == 0 {
            zero()
        } else {
            one()
        }
    } else if docs(walk.postings).contains(doc) {
        walk.postings[docs(walk.postings).index_of(doc)].score
    } else {
        zero()
    }
}

/// How many documents the walks meet in all.
pub open spec fn total(walks: Seq<Listing>) -> nat
    decreases walks.len(),
{
    if walks.len() == 0 {
        0
    } else {
        total(walks.drop_last()) + walks.last().postings.len()
    }
}

/// How many documents the segments hold in all.
pub open spec fn capacity(segments: Seq<SegmentReader>) -> nat
    decreases segments.len(),
{
    if segments.len() == 0 {
        0
    } else {
        capacity(segments.drop_last()) + segments.last().max_doc as nat
    }
}

/// The walks are among those that the weight allows, one for each of the first
/// segments.
pub open spec fn walked(
    weight: WeightModel,
    segments: Seq<SegmentReader>,
    walks: Seq<Listing>,
) -> bool {
    &&& walks.len() <= segments.len()
    &&& forall|i: int|
        0 <= i < walks.len() ==> weight.allows(segments[i], one(), Ok(#[trigger] walks[i]))
}

proof fn lemma_capacity_monotonic(segments: Seq<SegmentReader>, n: int)
    requires
        0 <= n <= segments.len(),
    ensures
        capacity(segments.take(n)) <= capacity(segments),
    decreases segments.len() - n,
{
    if n < segments.len() {
        lemma_capacity_monotonic(segments, n + 1);
        assert(segments.take(n + 1).drop_last() =~= segments.take(n));
    } else {
        assert(segments.take(n) =~= segments);
    }
}

/// The walk that was opened, or the one over no parents.
pub open spec fn walk_of<S: Scorer + ?Sized>(opened: Option<BlockJoinScorer<S>>) -> Listing {
    match opened {
        Some(walk) => walk.listing(),
        None => no_parents(),
    }
}

/// Walks to a document and returns the score that the walk gives it.
pub fn score_at<S: Scorer + ?Sized>(opened: Option<BlockJoinScorer<S>>, doc_id: DocId) -> (score:
    Score)
    requires
        opened matches Some(walk) ==> {
            &&& walk.inv()
            &&& walk.listing().valid()
            &&& walk.listing().position == -1
            &&& walk.listing().postings.len() > 0
        },
    ensures
        score@ == score_of(walk_of(opened), doc_id),
{
    match opened {
        None => Score::zero(),
        Some(mut walk) => {
            let ghost start = walk.listing();
            if walk.doc() == doc_id {
                return walk.score();
            }
            let ghost mut n: int = 0;
            let mut current_doc: DocId = walk.advance();
            while current_doc != TERMINATED && current_doc < doc_id
                invariant
                    walk.inv(),
                    start.valid(),
                    doc_id != TERMINATED,
                    0 <= n <= start.postings.len(),
                    walk.listing() == (Listing { postings: start.postings, position: n }),
                    current_doc == walk.listing().current(),
                    forall|i: int| 0 <= i < n ==> (#[trigger] start.postings[i]).doc < doc_id,
                decreases start.postings.len() - n,
            {
                current_doc = walk.advance();
                proof {
                    n = n + 1;
                }
            }
            let ghost found = docs(start.postings);
            if current_doc == doc_id {
                proof {
                    assert(found[n] == doc_id);
                    let k = found.index_of(doc_id);
                    assert(found[k] == start.postings[k].doc);
                    assert(start.postings[k].doc == start.postings[n].doc);
                }
                walk.score()
            } else {
                proof {
                    assert forall|i: int| 0 <= i < found.len() implies found[i] != doc_id by {
                        assert(found[i] == start.postings[i].doc);
                        if n < start.postings.len() {
                            assert(start.postings[n].doc > doc_id);
                        }
                    }
                }
                Score::zero()
            }
        },
    }
}

impl<C: Query + ?Sized, P: Query + ?Sized> BlockJoinQuery<C, P> {
    /// The query that child documents match.
    pub closed spec fn child(&self) -> Box<C> {
        self.child_query
    }

    /// The query that parent documents match.
    pub closed spec fn parents(&self) -> Box<P> {
        self.parents_filter
    }

    /// How parents are scored.
    pub closed spec fn mode(&self) -> ScoreMode {
        self.score_mode
    }

    /// Creates a new `BlockJoinQuery`.
    ///
    /// # Arguments
    ///
    /// * `child_query` - The query to match child documents.
    /// * `parents_filter` - The query to identify parent documents.
    /// * `score_mode` - The mode to aggregate scores from child documents.
    pub fn new(child_query: Box<C>, parents_filter: Box<P>, score_mode: ScoreMode) -> (query:
        BlockJoinQuery<C, P>)
        ensures
            query.child() == child_query,
            query.parents() == parents_filter,
            query.mode() == score_mode,
            query.model() == joined_query(
                score_mode,
                child_query.model(),
                parents_filter.model(),
            ),
    {
        BlockJoinQuery { child_query, parents_filter, score_mode }
    }

    /// Makes both sides of the join ready to run.
    pub fn join_weights(&self, enable_scoring: EnableScoring<'_>) -> (weight: Result<
        BlockJoinWeight<dyn Weight, dyn Weight>,
        Error,
    >)
        ensures
            match weight {
                Ok(weight) => self.model().allows(enable_scoring@, Ok(weight.model())),
                Err(error) => self.model().allows(enable_scoring@, Err(error)),
            },
    {
        match self.child_query.weight(enable_scoring) {
            Err(error) => Err(error),
            Ok(child_weight) => {
                match self.parents_filter.weight(enable_scoring) {
                    Err(error) => Err(error),
                    Ok(parents_weight) => {
                        let sides = (child_weight, parents_weight);
                        Ok(BlockJoinWeight::new(sides, self.score_mode))
                    },
                }
            },
        }
    }

    /// Counts the matches in all segments.
    pub fn count(&self, searcher: &Searcher) -> (counted: Result<usize, Error>)
        requires
            forall|i: int| 0 <= i < searcher@.len() ==> (#[trigger] searcher@[i]).valid(),
            capacity(searcher@) <= usize::MAX,
        ensures
            ({
                let scoring = Scoring { enabled: false, segments: searcher@ };
                match counted {
                    Ok(count) => exists|weight: WeightModel, walks: Seq<Listing>|
                        {
                            &&& #[trigger] self.model().allows(scoring, Ok(weight))
                            &&& #[trigger] walked(weight, searcher@, walks)
                            &&& walks.len() == searcher@.len()
                            &&& count == total(walks)
                        },
                    Err(error) => {
                        ||| self.model().allows(scoring, Err(error))
                        ||| exists|weight: WeightModel, walks: Seq<Listing>|
                            {
                                &&& #[trigger] self.model().allows(scoring, Ok(weight))
                                &&& #[trigger] walked(weight, searcher@, walks)
                                &&& walks.len() < searcher@.len()
                                &&& weight.allows(
                                    searcher@[walks.len() as int],
                                    one(),
                                    Err(error),
                                )
                            }
                    },
                }
            }),
    {
        let weight = match self.join_weights(EnableScoring::disabled_from_searcher(searcher)) {
            Ok(weight) => weight,
            Err(error) => {
                return Err(error);
            },
        };
        let mut total_count: usize = 0;
        let mut i: usize = 0;
        let ghost mut walks: Seq<Listing> = Seq::empty();
        while i < searcher.segment_readers.len()
            invariant
                i <= searcher@.len(),
                forall|k: int| 0 <= k < searcher@.len() ==> (#[trigger] searcher@[k]).valid(),
                capacity(searcher@) <= usize::MAX,
                self.model().allows(
                    (Scoring { enabled: false, segments: searcher@ }),
                    Ok(weight.model()),
                ),
                walked(weight.model(), searcher@, walks),
                walks.len() == i,
                total_count == total(walks),
                total_count <= capacity(searcher@.take(i as int)),
            decreases searcher@.len() - i,
        {
            let reader = searcher.segment_readers[i];
            match weight.count(&reader) {
                Err(error) => {
                    return Err(error);
                },
                Ok(count) => {
                    proof {
                        let walk = choose|walk: Listing| #[trigger]
                            weight.model().allows(reader, one(), Ok(walk)) && count
                                == walk.postings.len();
                        lemma_capacity_monotonic(searcher@, i + 1);
                        assert(searcher@.take(i + 1).drop_last() =~= searcher@.take(i as int));
                        assert(walks.push(walk).drop_last() =~= walks);
                        walks = walks.push(walk);
                    }
                    total_count = total_count + count as usize;
                },
            }
            i = i + 1;
        }
        Ok(total_count)
    }

    /// Explains the score of a document.
    pub fn explain(&self, searcher: &Searcher, doc_address: DocAddress) -> (explained: Result<
        Explanation,
        Error,
    >)
        requires
            doc_address.segment_ord < searcher@.len(),
            searcher@[doc_address.segment_ord as int].valid(),
        ensures
            ({
                let scoring = Scoring { enabled: true, segments: searcher@ };
                let segment = searcher@[doc_address.segment_ord as int];
                match explained {
                    Ok(explanation) => exists|weight: WeightModel, walk: Listing|
                        {
                            &&& #[trigger] self.model().allows(scoring, Ok(weight))
                            &&& #[trigger] weight.allows(segment, one(), Ok(walk))
                            &&& explanation.spec_value() == score_of(walk, doc_address.doc_id)
                            &&& explanation.spec_description() == "BlockJoinQuery"@
                            &&& explanation.spec_details().len() == 1
                            &&& explanation.spec_details()[0].spec_value() == score_of(
                                walk,
                                doc_address.doc_id,
                            )
                            &&& explanation.spec_details()[0].spec_description() == "score"@
                            &&& explanation.spec_details()[0].spec_details().len() == 0
                        },
                    Err(error) => {
                        ||| self.model().allows(scoring, Err(error))
                        ||| exists|weight: WeightModel| #[trigger]
                            self.model().allows(scoring, Ok(weight)) && weight.allows(
                                segment,
                                one(),
                                Err(error),
                            )
                    },
                }
            }),
    {
        let reader = searcher.segment_reader(doc_address.segment_ord);
        let weight = match self.join_weights(EnableScoring::enabled_from_searcher(searcher)) {
            Ok(weight) => weight,
            Err(error) => {
                return Err(error);
            },
        };
        let boost = Score::one();
        let opened = match weight.open(reader, &boost) {
            Ok(opened) => opened,
            Err(error) => {
                return Err(error);
            },
        };
        let ghost walk = walk_of(opened);
        let score = score_at(opened, doc_address.doc_id);
        proof {
            assert(self.model().allows(
                (Scoring { enabled: true, segments: searcher@ }),
                Ok(weight.model()),
            ));
            assert(weight.model().allows(*reader, one(), Ok(walk)));
        }
        let detail = Explanation::new("score", score.clone());
        let mut explanation = Explanation::new("BlockJoinQuery", score);
        explanation.add_detail(detail);
        Ok(explanation)
    }
}

impl<C: Query + ?Sized, P: Query + ?Sized> Query for BlockJoinQuery<C, P> {
    open spec fn model(&self) -> QueryModel {
        joined_query(self.mode(), self.child().model(), self.parents().model())
    }

    fn weight(&self, enable_scoring: EnableScoring<'_>) -> (weight: Result<
        Box<dyn Weight>,
        Error,
    >) {
        match self.join_weights(enable_scoring) {
            Err(error) => Err(error),
            Ok(weight) => {
                let weight: Box<dyn Weight> = Box::new(weight);
                let readied_weight = Ok(weight);
                readied_weight
            },
        }
    }

    fn query_terms<'a>(&'a self, visited: &mut Vec<(&'a Term, bool)>) {
        self.child_query.query_terms(visited);
        self.parents_filter.query_terms(visited);
        proof {
            let child_terms = self.child().model().terms;
            let parents_terms = self.parents().model().terms;
            assert(visits(old(visited)@) + child_terms + parents_terms =~= visits(old(visited)@)
                + (child_terms + parents_terms));
        }
    }

    fn debug_text(&self) -> (text: String) {
        let mut text = String::from_str("BlockJoinQuery(child_query: ");
        text.append(self.child_query.debug_text().as_str());
        text.append(", parents_filter: ");
        text.append(self.parents_filter.debug_text().as_str());
        text.append(", score_mode: ");
        text.append(self.score_mode.name());
        text.append(")");
        text
    }
}

impl<C: Query + Clone, P: Query + Clone> Clone for BlockJoinQuery<C, P> {
    fn clone(&self) -> (copy: Self)
        ensures
            cloned::<C>(*self.child(), *copy.child()),
            cloned::<P>(*self.parents(), *copy.parents()),
            copy.mode() == self.mode(),
    {
        BlockJoinQuery {
            child_query: self.child_query.clone(),
            parents_filter: self.parents_filter.clone(),
            score_mode: self.score_mode,
        }
    }
}

} // verus!
