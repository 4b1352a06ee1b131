//! What the words of the contracts mean, in elementary terms.
use vstd::prelude::*;

use crate::block_join_query::{capacity, total, walk_of, walked};
use crate::block_join_scorer::{gone_past, resting_score, BlockJoinScorer};
use crate::error::Error;
use crate::members::{bits, bound, listed, tally, Parents};
use crate::postings::{ascending, below, docs, DocId, Listing, Position, Posting, TERMINATED};
use crate::query::{readied, visits, EnableScoring, QueryModel, Readied, Scoring, Searcher, Term};
use crate::score::{one, terms, zero, Score, ScoreMode, ScoreTerm};
use crate::scorer::{EmptyScorer, Scorer};
use crate::weight::{outcome_of, reported, Outcome, SegmentReader, Weight, WeightModel};

verus! {

/// The empty list ascends. A longer one does where each posting added is a
/// document above the last.
pub proof fn law_ascending(postings: Seq<Posting>, next: Posting)
    ensures
        ascending(Seq::empty()),
        ascending(postings.push(next)) <==> {
            &&& ascending(postings)
            &&& next.doc < 0x7fff_ffff
            &&& postings.len() > 0 ==> postings.last().doc < next.doc
        },
{
    let more = postings.push(next);
    if ascending(more) {
        assert forall|i: int, j: int| 0 <= i < j < postings.len() implies (
        #[trigger] postings[i]).doc < (#[trigger] postings[j]).doc by {
            assert(more[i].doc < more[j].doc);
        }
        assert forall|i: int| 0 <= i < postings.len() implies (#[trigger] postings[i]).doc
            < TERMINATED by {
            assert(more[i].doc < TERMINATED);
        }
        assert(more[postings.len() as int] == next);
        if postings.len() > 0 {
            assert(more[postings.len() - 1] == postings.last());
        }
    }
}

/// There is one document number that is no document.
pub proof fn law_no_document()
    ensures
        TERMINATED == 0x7fff_ffff,
{
}

/// The empty list is below any bound. A longer one is where each posting added
/// is.
pub proof fn law_below(postings: Seq<Posting>, next: Posting, limit: int)
    ensures
        below(Seq::empty(), limit),
        below(postings.push(next), limit) <==> below(postings, limit) && next.doc < limit,
{
    let more = postings.push(next);
    if below(more, limit) {
        assert forall|i: int| 0 <= i < postings.len() implies (#[trigger] postings[i]).doc
            < limit by {
            assert(more[i].doc < limit);
        }
        assert(more[postings.len() as int] == next);
    }
}

/// There is one document number for each posting.
pub proof fn law_docs(postings: Seq<Posting>)
    ensures
        docs(postings).len() == postings.len(),
        forall|i: int|
            0 <= i < postings.len() ==> #[trigger] docs(postings)[i] == postings[i].doc,
{
}

/// Every walk over ascending postings is proper, from before its first match to
/// past its last one, and no other.
pub proof fn law_proper_walks(postings: Seq<Posting>, position: Position)
    ensures
        (Listing { postings, position }).valid() <==> ascending(postings) && -1 <= position
            <= postings.len(),
{
}

/// A walk that stands on its `k`-th match gives that document; before its first
/// and past its last match it gives none.
pub proof fn law_current(postings: Seq<Posting>, k: Position)
    ensures
        0 <= k < postings.len() ==> (Listing { postings, position: k }).on_document() && (Listing {
            postings,
            position: k,
        }).current() == postings[k].doc,
        k < 0 || k >= postings.len() ==> !(Listing { postings, position: k }).on_document()
            && (Listing { postings, position: k }).current() == 0x7fff_ffff,
{
}

/// A step goes to the next match, or past the last one; a walk that has ended
/// stays where it is. The matches remain the same.
pub proof fn law_step(walk: Listing)
    requires
        walk.valid(),
    ensures
        walk.advanced().valid(),
        walk.advanced().postings == walk.postings,
        walk.position < walk.postings.len() ==> walk.advanced().position == walk.position + 1,
        walk.position == walk.postings.len() ==> walk.advanced().position == walk.position,
{
}

/// All matches of a walk that has not begun are still to come. Once it has begun,
/// those from the current one on are, so that a step takes the first of them
/// away.
pub proof fn law_pending(walk: Listing)
    requires
        walk.valid(),
    ensures
        walk.position < 0 ==> walk.pending() == walk.postings && walk.advanced().pending()
            == walk.postings,
        walk.position >= 0 ==> {
            &&& walk.pending().len() == walk.postings.len() - walk.position
            &&& forall|k: int|
                0 <= k < walk.pending().len() ==> #[trigger] walk.pending()[k]
                    == walk.postings[walk.position + k]
        },
        0 <= walk.position < walk.postings.len() ==> walk.pending() == seq![
            walk.postings[walk.position],
        ] + walk.advanced().pending(),
{
    if walk.position < 0 {
        assert(walk.advanced().pending() =~= walk.postings);
    }
    if 0 <= walk.position < walk.postings.len() {
        assert(walk.pending() =~= seq![walk.postings[walk.position]]
            + walk.advanced().pending());
    }
}

/// To set a walk on its first match loses nothing of what is still to come, and
/// moves no walk that has begun.
pub proof fn law_begun(walk: Listing)
    requires
        walk.valid(),
    ensures
        walk.begun().valid(),
        walk.begun().postings == walk.postings,
        walk.begun().pending() == walk.pending(),
        walk.position < 0 ==> walk.begun().position == 0,
        walk.position >= 0 ==> walk.begun() == walk,
{
    assert(walk.begun().pending() =~= walk.pending());
}

/// A walk that goes past the documents below a limit passes those and no others.
pub proof fn law_gone_past(walk: Listing, limit: int)
    requires
        walk.valid(),
        walk.position >= 0,
    ensures
        gone_past(walk, limit).valid(),
        gone_past(walk, limit).postings == walk.postings,
        walk.position <= gone_past(walk, limit).position,
        forall|k: int|
            walk.position <= k < gone_past(walk, limit).position ==> (
            #[trigger] walk.postings[k]).doc < limit,
        forall|k: int|
            gone_past(walk, limit).position <= k < walk.postings.len() ==> (
            #[trigger] walk.postings[k]).doc >= limit,
{
    let rest = walk.pending();
    assert forall|i: int| 0 <= i < rest.len() implies #[trigger] rest[i] == walk.postings[
        walk.position + i] by {}
    assert(ascending(rest));
    crate::postings::lemma_below_first(rest, limit);
    assert forall|k: int| walk.position <= k < gone_past(walk, limit).position implies (
    #[trigger] walk.postings[k]).doc < limit by {
        assert(rest[k - walk.position].doc < limit);
    }
    assert forall|k: int|
        gone_past(walk, limit).position <= k < walk.postings.len() implies (
    #[trigger] walk.postings[k]).doc >= limit by {
        assert(rest[k - walk.position].doc >= limit);
    }
}

/// A walk over parents reports one before its first step, and the last parent's
/// score past the end. One over no parents always reports one.
pub proof fn law_resting_score(postings: Seq<Posting>, position: Position)
    ensures
        position < 0 ==> resting_score(postings, position) == ScoreTerm::Literal(0x3f80_0000),
        postings.len() == 0 ==> resting_score(postings, position) == ScoreTerm::Literal(
            0x3f80_0000,
        ),
        position >= postings.len() > 0 ==> resting_score(postings, position)
            == postings[postings.len() - 1].score,
{
}

/// The walk over no documents meets none.
pub proof fn law_empty_walk(walk: EmptyScorer, position: Position)
    ensures
        walk.inv(),
        walk.listing().postings.len() == 0,
        walk.listing().position == 0,
        walk.idle_score(position) == ScoreTerm::Literal(0),
        walk.hint(position) == 0,
{
}

/// One and zero are the single-precision numbers of that value.
pub proof fn law_numbers()
    ensures
        one() == ScoreTerm::Literal(0x3f80_0000),
        zero() == ScoreTerm::Literal(0),
{
}

/// There is one formula for each score.
pub proof fn law_terms(scores: Seq<Score>)
    ensures
        terms(scores).len() == scores.len(),
        forall|i: int| 0 <= i < scores.len() ==> #[trigger] terms(scores)[i] == scores[i]@,
{
}

/// A score stands for the formula that it spells out: the same operation, on as
/// many scores, in the same order.
pub proof fn law_score_stands_for_itself(bits: u32, scores: Vec<Score>)
    ensures
        Score::Literal(bits)@ == ScoreTerm::Literal(bits),
        Score::Mean(scores)@ == ScoreTerm::Mean(
            Seq::new(scores@.len(), |i: int| scores@[i]@),
        ),
        Score::Maximum(scores)@ == ScoreTerm::Maximum(
            Seq::new(scores@.len(), |i: int| scores@[i]@),
        ),
        Score::Sum(scores)@ == ScoreTerm::Sum(
            Seq::new(scores@.len(), |i: int| scores@[i]@),
        ),
{
    assert(terms(scores@) =~= Seq::new(scores@.len(), |i: int| scores@[i]@));
}

/// Each mode has its word.
pub proof fn law_mode_names()
    ensures
        ScoreMode::Avg.spec_name()@ == seq!['A', 'v', 'g'],
        ScoreMode::Max.spec_name()@ == seq!['M', 'a', 'x'],
        ScoreMode::Total.spec_name()@ == seq!['T', 'o', 't', 'a', 'l'],
        ScoreMode::NoScore.spec_name()@ == seq!['N', 'o', 'n', 'e'],
{
    reveal_strlit("Avg");
    reveal_strlit("Max");
    reveal_strlit("Total");
    reveal_strlit("None");
    assert(ScoreMode::Avg.spec_name()@ =~= seq!['A', 'v', 'g']);
    assert(ScoreMode::Max.spec_name()@ =~= seq!['M', 'a', 'x']);
    assert(ScoreMode::Total.spec_name()@ =~= seq!['T', 'o', 't', 'a', 'l']);
    assert(ScoreMode::NoScore.spec_name()@ =~= seq!['N', 'o', 'n', 'e']);
}

/// A segment is fit for a bit set unless rounding its size up to whole words
/// overflows.
pub proof fn law_fit_segments(segment_ord: u32, max_doc: DocId)
    ensures
        (SegmentReader { segment_ord, max_doc }).valid() <==> max_doc + 63 <= u32::MAX,
{
}

/// What came of opening a walk is the walk's listing, or the error.
pub proof fn law_outcome_of<S: Scorer + ?Sized>(walk: Box<S>, error: Error)
    ensures
        outcome_of(Ok::<Box<S>, Error>(walk)) == Ok::<Listing, Error>(walk.listing()),
        outcome_of(Err::<Box<S>, Error>(error)) == Err::<Listing, Error>(error),
{
}

/// What came of making a query ready is the weight's behaviour, or the error.
pub proof fn law_readied<W: Weight + ?Sized>(weight: Box<W>, error: Error)
    ensures
        readied(Ok::<Box<W>, Error>(weight)) == Ok::<WeightModel, Error>(weight.model()),
        readied(Err::<Box<W>, Error>(error)) == Err::<WeightModel, Error>(error),
{
}

/// A weight allows the outcomes of its relation, and no others.
pub proof fn law_weight_allows(
    outcomes: spec_fn(SegmentReader, ScoreTerm, Outcome) -> bool,
    reader: SegmentReader,
    boost: ScoreTerm,
    outcome: Outcome,
)
    ensures
        (WeightModel { outcomes }).allows(reader, boost, outcome) <==> outcomes(
            reader,
            boost,
            outcome,
        ),
{
}

/// A query allows the outcomes of its relation, and no others.
pub proof fn law_query_allows(query: QueryModel, scoring: Scoring, outcome: Readied)
    ensures
        query.allows(scoring, outcome) <==> (query.outcomes)(scoring, outcome),
{
}

/// Each reported hit is one posting, with its document and its score.
pub proof fn law_reported(hits: Seq<(DocId, Score)>)
    ensures
        reported(hits).len() == hits.len(),
        forall|i: int|
            0 <= i < hits.len() ==> (#[trigger] reported(hits)[i]).doc == hits[i].0 && reported(
                hits,
            )[i].score == hits[i].1@,
{
}

/// Each visit is one term, with whether positions are needed.
pub proof fn law_visits(visited: Seq<(&Term, bool)>)
    ensures
        visits(visited).len() == visited.len(),
        forall|i: int|
            0 <= i < visited.len() ==> (#[trigger] visits(visited)[i]).0 == *visited[i].0
                && visits(visited)[i].1 == visited[i].1,
{
}

/// Scoring is on or off as it is asked for, in the segments of the searcher.
pub proof fn law_scoring(searcher: &Searcher)
    ensures
        searcher@ == searcher.segment_readers@,
        EnableScoring::Enabled(searcher)@.enabled,
        EnableScoring::Enabled(searcher)@.segments == searcher.segment_readers@,
        !EnableScoring::Disabled(searcher)@.enabled,
        EnableScoring::Disabled(searcher)@.segments == searcher.segment_readers@,
{
}

/// The walks together meet as many documents as each of them.
pub proof fn law_total(walks: Seq<Listing>, next: Listing)
    ensures
        total(Seq::empty()) == 0,
        total(walks.push(next)) == total(walks) + next.postings.len(),
{
    assert(walks.push(next).drop_last() =~= walks);
}

/// The segments together hold as many documents as each of them.
pub proof fn law_capacity(segments: Seq<SegmentReader>, next: SegmentReader)
    ensures
        capacity(Seq::empty()) == 0,
        capacity(segments.push(next)) == capacity(segments) + next.max_doc,
{
    assert(segments.push(next).drop_last() =~= segments);
}

/// The empty list is a list of walks of the weight. A longer one is where each
/// walk added is one that the weight allows, unboosted, in the segment next in
/// turn.
pub proof fn law_walked(
    weight: WeightModel,
    segments: Seq<SegmentReader>,
    walks: Seq<Listing>,
    next: Listing,
)
    ensures
        walked(weight, segments, Seq::empty()),
        walked(weight, segments, walks.push(next)) <==> {
            &&& walked(weight, segments, walks)
            &&& walks.len() < segments.len()
            &&& weight.allows(
                segments[walks.len() as int],
                ScoreTerm::Literal(0x3f80_0000),
                Ok(next),
            )
        },
{
    let more = walks.push(next);
    if walked(weight, segments, more) {
        assert forall|i: int| 0 <= i < walks.len() implies weight.allows(
            segments[i],
            one(),
            Ok(#[trigger] walks[i]),
        ) by {
            assert(weight.allows(segments[i], one(), Ok(more[i])));
        }
        assert(more[walks.len() as int] == next);
    }
}

/// The walk that was opened is the scorer's; where none was opened, there is
/// nothing to walk over.
pub proof fn law_walk_of<S: Scorer + ?Sized>(scorer: BlockJoinScorer<S>)
    ensures
        walk_of(Some(scorer)) == scorer.listing(),
        walk_of(None::<BlockJoinScorer<S>>).postings.len() == 0,
        walk_of(None::<BlockJoinScorer<S>>).position == 0,
{
}

/// The list of a set holds the numbers of the set that are below the limit, and
/// no others, in ascending order.
pub proof fn law_listed(set: Set<u32>, limit: int)
    requires
        limit <= u32::MAX + 1,
    ensures
        forall|doc: u32| #[trigger]
            listed(set, limit).contains(doc) <==> set.contains(doc) && doc < limit,
        forall|i: int, j: int|
            0 <= i < j < listed(set, limit).len() ==> (#[trigger] listed(set, limit)[i]) < (
            #[trigger] listed(set, limit)[j]),
{
    crate::members::lemma_listed(set, limit);
    assert forall|doc: u32| set.contains(doc) && doc < limit implies #[trigger] listed(
        set,
        limit,
    ).contains(doc) by {
        crate::members::lemma_listed_rank(set, doc, limit);
        assert(listed(set, limit)[listed(set, doc as int).len() as int] == doc);
    }
}

/// Parents are in order where the count of the set is right, its members are
/// documents, and each of them has a score. The `i`-th posting is the `i`-th
/// member, with the `i`-th score.
pub proof fn law_parents(parents: Parents)
    ensures
        parents.listed() == listed(bits(parents.docs), bound(parents.docs) as int),
        parents.valid() <==> {
            &&& tally(parents.docs) == parents.listed().len()
            &&& parents.scores@.len() == parents.listed().len()
            &&& forall|doc: u32|
                doc < bound(parents.docs) && #[trigger] bits(parents.docs).contains(doc) ==> doc
                    < 0x7fff_ffff
        },
        parents.postings().len() == parents.listed().len(),
        forall|i: int|
            0 <= i < parents.listed().len() ==> (#[trigger] parents.postings()[i]).doc
                == parents.listed()[i] && parents.postings()[i].score == parents.scores@[i]@,
{
}

} // verus!
