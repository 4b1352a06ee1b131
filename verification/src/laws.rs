//! What holds of every join.
use vstd::prelude::*;

use crate::block_join_query::{
    join_readies, joined_query, score_of, total, walked, BlockJoinQuery,
};
use crate::block_join_scorer::fresh_walk;
use crate::block_join_weight::{
    join_allows, join_walks, joined_model, no_parents, BlockJoinWeight,
};
use crate::error::Error;
use crate::postings::{
    ascending, block_scores, block_start, count_below, docs, joined, DocId, Listing, Posting,
    TERMINATED,
};
use crate::query::{Query, QueryModel, Readied, Scoring};
use crate::score::{aggregate, one, zero, ScoreMode, ScoreTerm};
use crate::weight::{Outcome, SegmentReader, Weight, WeightModel};

verus! {

/// The document numbers ascend, and none is [`TERMINATED`].
pub open spec fn ascending_docs(list: Seq<DocId>) -> bool {
    &&& forall|i: int, j: int|
        0 <= i < j < list.len() ==> (#[trigger] list[i]) < (#[trigger] list[j])
    &&& forall|i: int| 0 <= i < list.len() ==> (#[trigger] list[i]) < TERMINATED
}

/// The document lies in the block that the `i`-th parent closes.
pub open spec fn in_block(parents: Seq<DocId>, i: int, doc: DocId) -> bool {
    0 <= i < parents.len() && block_start(parents, i) <= doc < parents[i]
}

/// The scores of all children in the first `n` blocks, block by block.
pub open spec fn first_blocks(parents: Seq<DocId>, children: Seq<Posting>, n: int) -> Seq<
    ScoreTerm,
>
    decreases n,
{
    if n <= 0 {
        Seq::empty()
    } else {
        first_blocks(parents, children, n - 1) + block_scores(parents, children, n - 1)
    }
}

/// The children that precede the last of the first `n` parents and are no parents
/// themselves.
pub open spec fn belong_to_first(parents: Seq<DocId>, n: int) -> spec_fn(Posting) -> bool {
    |child: Posting| n > 0 && child.doc < parents[n - 1] && !parents.contains(child.doc)
}

/// The walk after `n` steps.
pub open spec fn after_steps(walk: Listing, n: nat) -> Listing
    decreases n,
{
    if n == 0 {
        walk
    } else {
        after_steps(walk, (n - 1) as nat).advanced()
    }
}

/// The weight does the same each time: there is one outcome that it allows.
pub open spec fn settled(
    weight: WeightModel,
    reader: SegmentReader,
    boost: ScoreTerm,
    outcome: Outcome,
) -> bool {
    forall|other: Outcome| #[trigger]
        weight.allows(reader, boost, other) <==> other == outcome
}

proof fn lemma_same_filter<A>(s: Seq<A>, p: spec_fn(A) -> bool, q: spec_fn(A) -> bool)
    requires
        forall|i: int| 0 <= i < s.len() ==> p(#[trigger] s[i]) == q(s[i]),
    ensures
        s.filter(p) == s.filter(q),
    decreases s.len(),
{
    reveal(Seq::filter);
    if s.len() > 0 {
        let front = s.drop_last();
        assert(p(s[s.len() - 1]) == q(s[s.len() - 1]));
        assert forall|i: int| 0 <= i < front.len() implies p(#[trigger] front[i]) == q(
            front[i],
        ) by {
            assert(p(s[i]) == q(s[i]));
        }
        lemma_same_filter(front, p, q);
    }
}

/// A document lies in one block at most.
pub proof fn law_one_block_at_most(parents: Seq<DocId>, i: int, j: int, doc: DocId)
    requires
        ascending_docs(parents),
        in_block(parents, i, doc),
        in_block(parents, j, doc),
    ensures
        i == j,
{
    if i < j {
        assert(i == j - 1 || parents[i] < parents[j - 1]);
    } else if j < i {
        assert(j == i - 1 || parents[j] < parents[i - 1]);
    }
}

/// A document that is no parent lies in the block of the first parent after it,
/// if there is one.
pub proof fn law_block_of_the_next_parent(parents: Seq<DocId>, i: int, doc: DocId)
    requires
        ascending_docs(parents),
        0 <= i < parents.len(),
    ensures
        in_block(parents, i, doc) <==> {
            &&& doc < parents[i]
            &&& forall|k: int| 0 <= k < i ==> #[trigger] parents[k] < doc
        },
{
    if in_block(parents, i, doc) {
        assert forall|k: int| 0 <= k < i implies #[trigger] parents[k] < doc by {
            assert(k == i - 1 || parents[k] < parents[i - 1]);
        }
    }
    if doc < parents[i] && (forall|k: int| 0 <= k < i ==> #[trigger] parents[k] < doc) {
        if i > 0 {
            assert(parents[i - 1] < doc);
        }
    }
}

/// A parent lies in no block: a parent that matches the child query scores nobody.
pub proof fn law_parents_are_no_children(parents: Seq<DocId>, i: int, k: int)
    requires
        ascending_docs(parents),
        0 <= k < parents.len(),
    ensures
        !in_block(parents, i, parents[k]),
{
    if in_block(parents, i, parents[k]) {
        if k >= i {
            assert(k == i || parents[i] < parents[k]);
        } else {
            assert(k == i - 1 || parents[k] < parents[i - 1]);
        }
    }
}

/// The blocks together hold each child that precedes a parent and is none itself,
/// once and in order.
pub proof fn law_each_child_scores_once(parents: Seq<DocId>, children: Seq<Posting>, n: int)
    requires
        ascending_docs(parents),
        ascending(children),
        0 <= n <= parents.len(),
    ensures
        first_blocks(parents, children, n) == children.filter(
            belong_to_first(parents, n),
        ).map_values(|child: Posting| child.score),
    decreases n,
{
    let score = |child: Posting| child.score;
    if n == 0 {
        lemma_same_filter(children, belong_to_first(parents, 0), |child: Posting| false);
        crate::postings::lemma_filter_none(children, |child: Posting| false);
        assert(children.filter(belong_to_first(parents, 0)).map_values(score) =~= Seq::<
            ScoreTerm,
        >::empty());
    } else {
        law_each_child_scores_once(parents, children, n - 1);
        let earlier = belong_to_first(parents, n - 1);
        let now = belong_to_first(parents, n);
        let lo = block_start(parents, n - 1);
        let hi = parents[n - 1] as int;
        let block = |child: Posting| lo <= child.doc < hi;
        let m = count_below(children, lo) as int;
        crate::postings::lemma_below_first(children, lo);
        let front = children.take(m);
        let back = children.skip(m);
        assert(front + back =~= children);
        Seq::filter_distributes_over_add(front, back, earlier);
        Seq::filter_distributes_over_add(front, back, now);
        Seq::filter_distributes_over_add(front, back, block);
        assert forall|i: int| 0 <= i < front.len() implies earlier(#[trigger] front[i]) == now(
            front[i],
        ) && !block(front[i]) by {
            assert(front[i] == children[i]);
            let doc = front[i].doc;
            if n > 1 {
                assert(parents[n - 2] < parents[n - 1]);
                assert(parents.contains(parents[n - 2]));
            }
        }
        assert forall|i: int| 0 <= i < back.len() implies block(#[trigger] back[i]) == now(back[i])
            && !earlier(back[i]) by {
            assert(back[i] == children[m + i]);
            let doc = back[i].doc;
            if parents.contains(doc) {
                let k = choose|k: int| 0 <= k < parents.len() && parents[k] == doc;
                law_parents_are_no_children(parents, n - 1, k);
            }
        }
        lemma_same_filter(front, earlier, now);
        lemma_same_filter(back, block, now);
        crate::postings::lemma_filter_none(back, earlier);
        crate::postings::lemma_filter_none(front, block);
        assert(children.filter(now) =~= children.filter(earlier) + children.filter(block));
        assert(children.filter(now).map_values(score) =~= children.filter(earlier).map_values(
            score,
        ) + children.filter(block).map_values(score));
    }
}

/// A join meets the parents and no other documents, in their order.
pub proof fn law_join_meets_the_parents(
    mode: ScoreMode,
    parents: Seq<Posting>,
    children: Seq<Posting>,
)
    requires
        ascending(parents),
    ensures
        docs(joined(mode, parents, children)) == docs(parents),
        fresh_walk(mode, parents, children).valid(),
{
    assert(docs(joined(mode, parents, children)) =~= docs(parents));
}

/// The children and the mode change nothing but the scores: joins of the same
/// parents meet the same documents, and as many of them.
pub proof fn law_documents_depend_on_the_parents_alone(
    mode: ScoreMode,
    other_mode: ScoreMode,
    parents: Seq<Posting>,
    children: Seq<Posting>,
    other_children: Seq<Posting>,
    n: nat,
)
    ensures
        docs(joined(mode, parents, children)) == docs(
            joined(other_mode, parents, other_children),
        ),
        joined(mode, parents, children).len() == joined(
            other_mode,
            parents,
            other_children,
        ).len(),
        after_steps(fresh_walk(mode, parents, children), n).current() == after_steps(
            fresh_walk(other_mode, parents, other_children),
            n,
        ).current(),
{
    assert(docs(joined(mode, parents, children)) =~= docs(
        joined(other_mode, parents, other_children),
    ));
    lemma_steps(fresh_walk(mode, parents, children), n);
    lemma_steps(fresh_walk(other_mode, parents, other_children), n);
}

/// A parent without matching children scores one, in every mode that scores from
/// children.
pub proof fn law_childless_parent_scores_one(
    mode: ScoreMode,
    parents: Seq<Posting>,
    children: Seq<Posting>,
    i: int,
)
    requires
        mode != ScoreMode::NoScore,
        0 <= i < parents.len(),
        forall|k: int|
            0 <= k < children.len() ==> !in_block(docs(parents), i, (#[trigger] children[k]).doc),
    ensures
        joined(mode, parents, children)[i].score == one(),
{
    crate::postings::lemma_window_none(
        children,
        block_start(docs(parents), i),
        docs(parents)[i] as int,
    );
}

/// Where the mode says not to score from children, every parent keeps its own
/// score.
pub proof fn law_unscored_parents_keep_their_scores(
    parents: Seq<Posting>,
    children: Seq<Posting>,
)
    ensures
        joined(ScoreMode::NoScore, parents, children) == parents,
{
    assert(joined(ScoreMode::NoScore, parents, children) =~= parents);
}

/// A fresh join stands on no document; its `n`-th step goes to the `n`-th
/// parent, and every step past the last one to none.
pub proof fn law_steps_visit_the_parents(
    mode: ScoreMode,
    parents: Seq<Posting>,
    children: Seq<Posting>,
    n: nat,
)
    ensures
        after_steps(fresh_walk(mode, parents, children), n).postings == joined(
            mode,
            parents,
            children,
        ),
        after_steps(fresh_walk(mode, parents, children), n).current() == if 1 <= n
            <= parents.len() {
            parents[n - 1].doc
        } else {
            TERMINATED
        },
{
    let walk = fresh_walk(mode, parents, children);
    lemma_steps(walk, n);
}

proof fn lemma_steps(walk: Listing, n: nat)
    requires
        -1 <= walk.position <= walk.postings.len(),
    ensures
        after_steps(walk, n).postings == walk.postings,
        after_steps(walk, n).position == if walk.position + n <= walk.postings.len() {
            walk.position + n
        } else {
            walk.postings.len() as int
        },
    decreases n,
{
    if n > 0 {
        lemma_steps(walk, (n - 1) as nat);
    }
}

/// The score by which a match is explained is the score that it is reported with,
/// and a document that is not met is explained by zero. ([`TERMINATED`] is no
/// document.)
pub proof fn law_explained_as_reported(walk: Listing, doc: DocId)
    requires
        walk.valid(),
        doc != TERMINATED,
    ensures
        forall|i: int|
            0 <= i < walk.postings.len() && (#[trigger] walk.postings[i]).doc == doc ==> score_of(
                walk,
                doc,
            ) == walk.postings[i].score,
        (forall|i: int| 0 <= i < walk.postings.len() ==> (#[trigger] walk.postings[i]).doc != doc)
            ==> score_of(walk, doc) == zero(),
{
    let list = docs(walk.postings);
    assert forall|i: int|
        0 <= i < walk.postings.len() && (#[trigger] walk.postings[i]).doc == doc implies score_of(
        walk,
        doc,
    ) == walk.postings[i].score by {
        assert(list[i] == doc);
        let k = list.index_of(doc);
        assert(list[k] == walk.postings[k].doc);
    }
    if forall|i: int| 0 <= i < walk.postings.len() ==> (#[trigger] walk.postings[i]).doc != doc {
        assert forall|i: int| 0 <= i < list.len() implies list[i] != doc by {
            assert(list[i] == walk.postings[i].doc);
        }
    }
}

/// A join of weights that do the same each time does the same each time.
pub proof fn law_settled_sides_settle_the_join(
    mode: ScoreMode,
    parents: WeightModel,
    child: WeightModel,
    reader: SegmentReader,
    boost: ScoreTerm,
    parents_outcome: Outcome,
    child_outcome: Outcome,
)
    requires
        settled(parents, reader, boost, parents_outcome),
        settled(child, reader, boost, child_outcome),
    ensures
        settled(
            joined_model(mode, parents, child),
            reader,
            boost,
            match parents_outcome {
                Err(error) => Err(error),
                Ok(walk) => if walk.pending().len() == 0 {
                    Ok(no_parents())
                } else {
                    join_walks(mode, walk, child_outcome)
                },
            },
        ),
{
    assert(parents.allows(reader, boost, parents_outcome));
    assert(child.allows(reader, boost, child_outcome));
}

/// Where there is no parent, the join is empty whatever comes of the children:
/// they are not asked for.
pub proof fn law_no_parent_no_child(
    mode: ScoreMode,
    parents: WeightModel,
    child: WeightModel,
    reader: SegmentReader,
    boost: ScoreTerm,
    walk: Listing,
)
    requires
        settled(parents, reader, boost, Ok(walk)),
        walk.pending().len() == 0,
    ensures
        settled(joined_model(mode, parents, child), reader, boost, Ok(no_parents())),
{
    assert(parents.allows(reader, boost, Ok(walk)));
}

/// A join whose sides cannot fail cannot fail: neither when it is made ready ...
pub proof fn law_ready_sides_ready_the_join(
    mode: ScoreMode,
    child: QueryModel,
    parents: QueryModel,
    scoring: Scoring,
    outcome: Readied,
)
    requires
        forall|error: Error| !(#[trigger] child.allows(scoring, Err(error))),
        forall|error: Error| !(#[trigger] parents.allows(scoring, Err(error))),
        join_readies(mode, child, parents, scoring, outcome),
    ensures
        outcome is Ok,
{
}

/// ... nor when it is opened on a segment.
pub proof fn law_open_sides_open_the_join(
    mode: ScoreMode,
    parents: WeightModel,
    child: WeightModel,
    reader: SegmentReader,
    boost: ScoreTerm,
    outcome: Outcome,
)
    requires
        forall|error: Error| !(#[trigger] parents.allows(reader, boost, Err(error))),
        forall|error: Error| !(#[trigger] child.allows(reader, boost, Err(error))),
        joined_model(mode, parents, child).allows(reader, boost, outcome),
    ensures
        outcome is Ok,
{
    assert(join_allows(mode, parents, child, reader, boost, outcome));
}

/// A count that the weight allows in the segment.
pub open spec fn counted(weight: WeightModel, segment: SegmentReader, count: nat) -> bool {
    exists|walk: Listing| #[trigger]
        weight.allows(segment, one(), Ok(walk)) && count == walk.postings.len()
}

/// Of a weight that does the same each time, as many matches are counted as are
/// reported.
pub proof fn law_counted_as_reported(
    weight: WeightModel,
    reader: SegmentReader,
    outcome: Outcome,
    count: nat,
    hits: Seq<Posting>,
)
    requires
        settled(weight, reader, one(), outcome),
        counted(weight, reader, count),
        exists|walk: Listing| #[trigger]
            weight.allows(reader, one(), Ok(walk)) && hits == walk.postings,
    ensures
        count == hits.len(),
{
}

/// What is counted of a join are the parents still to come, whatever the mode and
/// the children.
pub proof fn law_join_counts_the_parents(
    mode: ScoreMode,
    parents: WeightModel,
    child: WeightModel,
    segment: SegmentReader,
    count: nat,
)
    requires
        counted(joined_model(mode, parents, child), segment, count),
    ensures
        exists|walk: Listing| #[trigger]
            parents.allows(segment, one(), Ok(walk)) && count == walk.pending().len(),
{
    let joined_walk = choose|walk: Listing| #[trigger]
        joined_model(mode, parents, child).allows(segment, one(), Ok(walk)) && count
            == walk.postings.len();
    law_join_meets_every_parent(mode, parents, child, segment, one(), joined_walk);
}

/// The sum of the numbers.
pub open spec fn sum(counts: Seq<nat>) -> nat
    decreases counts.len(),
{
    if counts.len() == 0 {
        0
    } else {
        sum(counts.drop_last()) + counts.last()
    }
}

/// Of a weight that does the same each time, the count over all segments is the
/// sum of the counts in each of them, and zero where there are none.
pub proof fn law_counts_add_up(
    weight: WeightModel,
    segments: Seq<SegmentReader>,
    outcomes: Seq<Outcome>,
    counts: Seq<nat>,
    walks: Seq<Listing>,
)
    requires
        outcomes.len() == segments.len(),
        forall|i: int|
            0 <= i < segments.len() ==> settled(
                weight,
                segments[i],
                one(),
                #[trigger] outcomes[i],
            ),
        counts.len() == segments.len(),
        forall|i: int|
            0 <= i < segments.len() ==> counted(weight, segments[i], #[trigger] counts[i]),
        walked(weight, segments, walks),
        walks.len() == segments.len(),
    ensures
        total(walks) == sum(counts),
    decreases segments.len(),
{
    if segments.len() > 0 {
        let last = segments.len() - 1;
        let front = segments.drop_last();
        assert(settled(weight, segments[last], one(), outcomes[last]));
        assert(counted(weight, segments[last], counts[last]));
        assert(weight.allows(segments[last], one(), Ok(walks[last])));
        assert forall|i: int| 0 <= i < front.len() implies settled(
            weight,
            front[i],
            one(),
            #[trigger] outcomes.drop_last()[i],
        ) by {
            assert(settled(weight, segments[i], one(), outcomes[i]));
        }
        assert forall|i: int| 0 <= i < front.len() implies counted(
            weight,
            front[i],
            #[trigger] counts.drop_last()[i],
        ) by {
            assert(counted(weight, segments[i], counts[i]));
        }
        assert forall|i: int| 0 <= i < walks.drop_last().len() implies weight.allows(
            front[i],
            one(),
            Ok(#[trigger] walks.drop_last()[i]),
        ) by {
            assert(weight.allows(segments[i], one(), Ok(walks[i])));
        }
        law_counts_add_up(
            weight,
            front,
            outcomes.drop_last(),
            counts.drop_last(),
            walks.drop_last(),
        );
    }
}

/// A join can be a side of another join: all that it matches is still to come,
/// though it starts before its first match.
pub proof fn law_join_inside_a_join(
    mode: ScoreMode,
    parents: Seq<Posting>,
    children: Seq<Posting>,
)
    ensures
        fresh_walk(mode, parents, children).pending() == joined(mode, parents, children),
{
    assert(fresh_walk(mode, parents, children).pending() =~= joined(mode, parents, children));
}

/// The children from the `lo`-th on and before the `hi`-th are those that lie
/// between the parent before the `i`-th one, if there is one, and the `i`-th one.
pub open spec fn block_run(
    parents: Seq<Posting>,
    children: Seq<Posting>,
    i: int,
    lo: int,
    hi: int,
) -> bool {
    &&& 0 <= lo <= hi <= children.len()
    &&& forall|k: int|
        0 <= k < children.len() ==> ((lo <= k < hi) <==> ((#[trigger] children[k]).doc
            < parents[i].doc && (i > 0 ==> parents[i - 1].doc < children[k].doc)))
}

/// The children of a block stand next to one another.
pub proof fn law_block_is_a_run(parents: Seq<Posting>, children: Seq<Posting>, i: int)
    requires
        ascending(parents),
        ascending(children),
        0 <= i < parents.len(),
    ensures
        exists|lo: int, hi: int| block_run(parents, children, i, lo, hi),
{
    let start = if i == 0 {
        0
    } else {
        parents[i - 1].doc + 1
    };
    let end = parents[i].doc as int;
    if i > 0 {
        assert(parents[i - 1].doc < parents[i].doc);
    }
    crate::postings::lemma_below_first(children, start);
    crate::postings::lemma_below_first(children, end);
    let lo = count_below(children, start) as int;
    let hi = count_below(children, end) as int;
    assert(lo <= hi) by {
        if hi < lo {
            assert(children[hi].doc < start);
            assert(children[hi].doc >= end);
        }
    }
    assert forall|k: int| 0 <= k < children.len() implies ((lo <= k < hi) <==> ((
    #[trigger] children[k]).doc < parents[i].doc && (i > 0 ==> parents[i - 1].doc
        < children[k].doc))) by {}
    assert(block_run(parents, children, i, lo, hi));
}

/// The scores of the children in a block are those of its run.
proof fn lemma_run_scores(
    parents: Seq<Posting>,
    children: Seq<Posting>,
    i: int,
    lo: int,
    hi: int,
)
    requires
        0 <= i < parents.len(),
        block_run(parents, children, i, lo, hi),
    ensures
        block_scores(docs(parents), children, i) == Seq::new(
            (hi - lo) as nat,
            |k: int| children[lo + k].score,
        ),
{
    let start = block_start(docs(parents), i);
    let end = docs(parents)[i] as int;
    let block = |child: Posting| start <= child.doc < end;
    let score = |child: Posting| child.score;
    let front = children.take(lo);
    let run = children.subrange(lo, hi);
    let back = children.skip(hi);
    assert(front + run + back =~= children);
    Seq::filter_distributes_over_add(front + run, back, block);
    Seq::filter_distributes_over_add(front, run, block);
    assert forall|k: int| 0 <= k < front.len() implies !block(#[trigger] front[k]) by {
        assert(front[k] == children[k]);
    }
    assert forall|k: int| 0 <= k < back.len() implies !block(#[trigger] back[k]) by {
        assert(back[k] == children[hi + k]);
    }
    assert forall|k: int| 0 <= k < run.len() implies block(#[trigger] run[k]) by {
        assert(run[k] == children[lo + k]);
    }
    crate::postings::lemma_filter_none(front, block);
    crate::postings::lemma_filter_none(back, block);
    crate::postings::lemma_filter_all(run, block);
    assert(children.filter(block) =~= run);
    assert(run.map_values(score) =~= Seq::new((hi - lo) as nat, |k: int| children[lo + k].score));
}

/// In the mode for it, a parent with children scores the average of the scores of
/// all children of its block, each once and in order.
pub proof fn law_average_over_the_block(
    parents: Seq<Posting>,
    children: Seq<Posting>,
    i: int,
    lo: int,
    hi: int,
)
    requires
        0 <= i < parents.len(),
        block_run(parents, children, i, lo, hi),
        lo < hi,
    ensures
        joined(ScoreMode::Avg, parents, children)[i].score == ScoreTerm::Mean(
            Seq::new((hi - lo) as nat, |k: int| children[lo + k].score),
        ),
{
    lemma_run_scores(parents, children, i, lo, hi);
}

/// In the mode for it, a parent with children scores the maximum of the scores of
/// all children of its block: each of them is compared, and nothing else is.
pub proof fn law_maximum_over_the_block(
    parents: Seq<Posting>,
    children: Seq<Posting>,
    i: int,
    lo: int,
    hi: int,
)
    requires
        0 <= i < parents.len(),
        block_run(parents, children, i, lo, hi),
        lo < hi,
    ensures
        joined(ScoreMode::Max, parents, children)[i].score == ScoreTerm::Maximum(
            Seq::new((hi - lo) as nat, |k: int| children[lo + k].score),
        ),
{
    lemma_run_scores(parents, children, i, lo, hi);
}

/// In the mode for it, a parent with children scores the sum of the scores of all
/// children of its block, each once and in order.
pub proof fn law_sum_over_the_block(
    parents: Seq<Posting>,
    children: Seq<Posting>,
    i: int,
    lo: int,
    hi: int,
)
    requires
        0 <= i < parents.len(),
        block_run(parents, children, i, lo, hi),
        lo < hi,
    ensures
        joined(ScoreMode::Total, parents, children)[i].score == ScoreTerm::Sum(
            Seq::new((hi - lo) as nat, |k: int| children[lo + k].score),
        ),
{
    lemma_run_scores(parents, children, i, lo, hi);
}

/// A parent scores one where no child lies between the parent before it and it,
/// in every mode that scores from children; where the mode does not, its own
/// score, whatever lies there.
pub proof fn law_score_without_children(
    parents: Seq<Posting>,
    children: Seq<Posting>,
    i: int,
    none: int,
)
    requires
        0 <= i < parents.len(),
    ensures
        block_run(parents, children, i, none, none) ==> {
            &&& joined(ScoreMode::Avg, parents, children)[i].score == ScoreTerm::Literal(
                0x3f80_0000,
            )
            &&& joined(ScoreMode::Max, parents, children)[i].score == ScoreTerm::Literal(
                0x3f80_0000,
            )
            &&& joined(ScoreMode::Total, parents, children)[i].score == ScoreTerm::Literal(
                0x3f80_0000,
            )
        },
        joined(ScoreMode::NoScore, parents, children)[i].score == parents[i].score,
{
    if block_run(parents, children, i, none, none) {
        lemma_run_scores(parents, children, i, none, none);
    }
}

/// A mode combines all scores that it is given, however many they are, by the
/// operation that it is named after. Without any it gives one. The mode that does
/// not score from children keeps the parent's own score.
pub proof fn law_mode_combines_all_scores(own: ScoreTerm, scores: Seq<ScoreTerm>)
    ensures
        scores.len() > 0 ==> {
            &&& aggregate(ScoreMode::Avg, own, scores) matches ScoreTerm::Mean(combined)
                && combined =~= scores
            &&& aggregate(ScoreMode::Max, own, scores) matches ScoreTerm::Maximum(combined)
                && combined =~= scores
            &&& aggregate(ScoreMode::Total, own, scores) matches ScoreTerm::Sum(combined)
                && combined =~= scores
        },
        forall|mode: ScoreMode|
            mode != ScoreMode::NoScore ==> #[trigger] aggregate(mode, own, Seq::empty())
                == ScoreTerm::Literal(0x3f80_0000),
        aggregate(ScoreMode::NoScore, own, scores) == own,
{
}

/// Where a join opens a walk, a walk over the parents was opened, and the join
/// meets all parents that this walk had still to come, however many they are, and
/// nothing else. It stands before the first of them.
pub proof fn law_join_meets_every_parent(
    mode: ScoreMode,
    parents: WeightModel,
    child: WeightModel,
    reader: SegmentReader,
    boost: ScoreTerm,
    joined_walk: Listing,
)
    requires
        joined_model(mode, parents, child).allows(reader, boost, Ok(joined_walk)),
    ensures
        exists|walk: Listing| #[trigger]
            parents.allows(reader, boost, Ok(walk)) && {
                &&& joined_walk.postings.len() == walk.pending().len()
                &&& forall|i: int|
                    0 <= i < walk.pending().len() ==> (#[trigger] joined_walk.postings[i]).doc
                        == walk.pending()[i].doc
                &&& joined_walk.position == if walk.pending().len() == 0 {
                    0int
                } else {
                    -1int
                }
            },
{
    assert(join_allows(mode, parents, child, reader, boost, Ok(joined_walk)));
}

/// A join opens a walk over parents where a walk over them and one over children
/// can be opened, under the boost of the join: each such pair gives one, with the
/// scores of what both had still to come. Nothing else gives one, but for a walk
/// over no parents, which gives the empty join.
pub proof fn law_join_of_both_walks(
    mode: ScoreMode,
    parents: WeightModel,
    child: WeightModel,
    reader: SegmentReader,
    boost: ScoreTerm,
    joined_walk: Listing,
)
    ensures
        joined_walk.postings.len() > 0 ==> (joined_model(mode, parents, child).allows(
            reader,
            boost,
            Ok(joined_walk),
        ) <==> exists|walk: Listing, children: Listing|
            {
                &&& #[trigger] parents.allows(reader, boost, Ok(walk))
                &&& #[trigger] child.allows(reader, boost, Ok(children))
                &&& joined_walk.position == -1
                &&& joined_walk.postings == joined(mode, walk.pending(), children.pending())
            }),
        joined_walk.postings.len() == 0 ==> (joined_model(mode, parents, child).allows(
            reader,
            boost,
            Ok(joined_walk),
        ) <==> joined_walk.position == 0 && exists|walk: Listing| #[trigger]
            parents.allows(reader, boost, Ok(walk)) && walk.pending().len() == 0),
{
    let model = joined_model(mode, parents, child);
    assert(model.allows(reader, boost, Ok(joined_walk)) <==> join_allows(
        mode,
        parents,
        child,
        reader,
        boost,
        Ok(joined_walk),
    ));
    if model.allows(reader, boost, Ok(joined_walk)) {
        let walk = choose|walk: Listing| #[trigger]
            parents.allows(reader, boost, Ok(walk)) && if walk.pending().len() == 0 {
                Ok::<Listing, Error>(joined_walk) == Ok::<Listing, Error>(no_parents())
            } else {
                exists|children: Outcome| #[trigger]
                    child.allows(reader, boost, children) && Ok::<Listing, Error>(joined_walk)
                        == join_walks(mode, walk, children)
            };
        assert(parents.allows(reader, boost, Ok(walk)));
        if walk.pending().len() > 0 {
            let children = choose|children: Outcome| #[trigger]
                child.allows(reader, boost, children) && Ok::<Listing, Error>(joined_walk)
                    == join_walks(mode, walk, children);
            assert(child.allows(reader, boost, Ok(children->Ok_0)));
        }
    }
    if joined_walk.postings.len() == 0 && joined_walk.position == 0 {
        assert(joined_walk.postings =~= Seq::empty());
        assert(joined_walk == no_parents());
    }
}

/// A join fails with the errors that its parents fail with, and, where there is a
/// parent, with those that its children fail with. It fails in no other way.
pub proof fn law_join_fails_as_its_sides(
    mode: ScoreMode,
    parents: WeightModel,
    child: WeightModel,
    reader: SegmentReader,
    boost: ScoreTerm,
    error: Error,
)
    ensures
        joined_model(mode, parents, child).allows(reader, boost, Err(error)) <==> {
            ||| parents.allows(reader, boost, Err(error))
            ||| child.allows(reader, boost, Err(error)) && exists|walk: Listing| #[trigger]
                parents.allows(reader, boost, Ok(walk)) && walk.pending().len() > 0
        },
{
    let model = joined_model(mode, parents, child);
    assert(model.allows(reader, boost, Err(error)) <==> join_allows(
        mode,
        parents,
        child,
        reader,
        boost,
        Err(error),
    ));
}

/// A weight made of two sides behaves as their join.
pub proof fn law_weight_joins_its_sides<C: Weight + ?Sized, P: Weight + ?Sized>(
    weight: BlockJoinWeight<C, P>,
    reader: SegmentReader,
    boost: ScoreTerm,
    outcome: Outcome,
)
    ensures
        weight.model().allows(reader, boost, outcome) <==> joined_model(
            weight.score_mode,
            weight.parents_weight.model(),
            weight.child_weight.model(),
        ).allows(reader, boost, outcome),
{
}

/// A query made of two sides behaves as their join.
pub proof fn law_query_joins_its_sides<C: Query + ?Sized, P: Query + ?Sized>(
    query: BlockJoinQuery<C, P>,
)
    ensures
        query.model() == joined_query(
            query.mode(),
            query.child().model(),
            query.parents().model(),
        ),
{
}

/// A join made ready under a scoring setting is the join of its children and its
/// parents, both made ready under that same setting.
pub proof fn law_join_readies_both_sides(
    mode: ScoreMode,
    child: QueryModel,
    parents: QueryModel,
    scoring: Scoring,
    weight: WeightModel,
)
    ensures
        joined_query(mode, child, parents).allows(scoring, Ok(weight)) <==> exists|
            child_weight: WeightModel,
            parents_weight: WeightModel,
        |
            {
                &&& #[trigger] child.allows(scoring, Ok(child_weight))
                &&& #[trigger] parents.allows(scoring, Ok(parents_weight))
                &&& weight == joined_model(mode, parents_weight, child_weight)
            },
{
    assert(joined_query(mode, child, parents).allows(scoring, Ok(weight)) <==> join_readies(
        mode,
        child,
        parents,
        scoring,
        Ok(weight),
    ));
}

/// A join cannot be made ready where its children cannot, or where its children
/// can and its parents cannot, and fails with the same error.
pub proof fn law_join_unready_as_its_sides(
    mode: ScoreMode,
    child: QueryModel,
    parents: QueryModel,
    scoring: Scoring,
    error: Error,
)
    ensures
        joined_query(mode, child, parents).allows(scoring, Err(error)) <==> {
            ||| child.allows(scoring, Err(error))
            ||| parents.allows(scoring, Err(error)) && exists|child_weight: WeightModel| #[trigger]
                child.allows(scoring, Ok(child_weight))
        },
{
    assert(joined_query(mode, child, parents).allows(scoring, Err(error)) <==> join_readies(
        mode,
        child,
        parents,
        scoring,
        Err(error),
    ));
}

/// Where each side can be made ready in one way only under a setting, so can
/// their join: as the join of these two, whatever the sides do under other
/// settings.
pub proof fn law_readied_in_one_way(
    mode: ScoreMode,
    child: QueryModel,
    parents: QueryModel,
    scoring: Scoring,
    child_weight: WeightModel,
    parents_weight: WeightModel,
    outcome: Readied,
)
    requires
        forall|other: Readied| #[trigger]
            child.allows(scoring, other) <==> other == Ok::<WeightModel, Error>(child_weight),
        forall|other: Readied| #[trigger]
            parents.allows(scoring, other) <==> other == Ok::<WeightModel, Error>(parents_weight),
    ensures
        joined_query(mode, child, parents).allows(scoring, outcome) <==> outcome == Ok::<
            WeightModel,
            Error,
        >(joined_model(mode, parents_weight, child_weight)),
{
    assert(child.allows(scoring, Ok(child_weight)));
    assert(parents.allows(scoring, Ok(parents_weight)));
    assert(joined_query(mode, child, parents).allows(scoring, outcome) <==> join_readies(
        mode,
        child,
        parents,
        scoring,
        outcome,
    ));
}

/// What a join does under a setting depends on what its sides do under that
/// setting alone.
pub proof fn law_settings_do_not_mix(
    mode: ScoreMode,
    child: QueryModel,
    other_child: QueryModel,
    parents: QueryModel,
    other_parents: QueryModel,
    scoring: Scoring,
    outcome: Readied,
)
    requires
        forall|readied: Readied|
            #![trigger child.allows(scoring, readied)]
            #![trigger other_child.allows(scoring, readied)]
            child.allows(scoring, readied) <==> other_child.allows(scoring, readied),
        forall|readied: Readied|
            #![trigger parents.allows(scoring, readied)]
            #![trigger other_parents.allows(scoring, readied)]
            parents.allows(scoring, readied) <==> other_parents.allows(scoring, readied),
    ensures
        joined_query(mode, child, parents).allows(scoring, outcome) <==> joined_query(
            mode,
            other_child,
            other_parents,
        ).allows(scoring, outcome),
{
    match outcome {
        Ok(weight) => {
            law_join_readies_both_sides(mode, child, parents, scoring, weight);
            law_join_readies_both_sides(mode, other_child, other_parents, scoring, weight);
        },
        Err(error) => {
            law_join_unready_as_its_sides(mode, child, parents, scoring, error);
            law_join_unready_as_its_sides(mode, other_child, other_parents, scoring, error);
        },
    }
}

/// The terms of a join are all terms of its children's query, in order, and then
/// all terms of its parents' query, in order.
pub proof fn law_terms_of_both_sides(mode: ScoreMode, child: QueryModel, parents: QueryModel)
    ensures
        joined_query(mode, child, parents).terms.len() == child.terms.len() + parents.terms.len(),
        forall|i: int|
            0 <= i < child.terms.len() ==> #[trigger] joined_query(mode, child, parents).terms[i]
                == child.terms[i],
        forall|j: int|
            0 <= j < parents.terms.len() ==> #[trigger] parents.terms[j] == joined_query(
                mode,
                child,
                parents,
            ).terms[child.terms.len() + j],
{
}

/// The text of a join names the kind of query, and holds the texts of both sides
/// and the word for the mode, each behind its label.
pub proof fn law_text_of_both_sides(mode: ScoreMode, child: QueryModel, parents: QueryModel)
    ensures
        joined_query(mode, child, parents).text == "BlockJoinQuery(child_query: "@ + child.text
            + ", parents_filter: "@ + parents.text + ", score_mode: "@ + (match mode {
            ScoreMode::Avg => "Avg"@,
            ScoreMode::Max => "Max"@,
            ScoreMode::Total => "Total"@,
            ScoreMode::NoScore => "None"@,
        }) + ")"@,
{
}

/// The number that stands for no document is explained by one where there is a
/// parent, and by zero where there is none.
pub proof fn law_explained_at_no_document(walk: Listing)
    ensures
        walk.postings.len() > 0 ==> score_of(walk, 0x7fff_ffff) == ScoreTerm::Literal(0x3f80_0000),
        walk.postings.len() == 0 ==> score_of(walk, 0x7fff_ffff) == ScoreTerm::Literal(0),
{
}

} // verus!
