use std::cell::Cell;
use std::rc::Rc;

use block_join::block_join_query::{score_at, BlockJoinQuery};
use block_join::block_join_scorer::BlockJoinScorer;
use block_join::block_join_weight::{collect_parents, BlockJoinWeight};
use block_join::error::Error;
use block_join::postings::{DocId, Listing, Position, TERMINATED};
use block_join::query::{DocAddress, EnableScoring, Query, QueryModel, Searcher, Term};
use block_join::score::{Score, ScoreMode, ScoreTerm};
use block_join::scorer::{EmptyScorer, Scorer};
use block_join::weight::{SegmentReader, Weight, WeightModel};

const MODES: [ScoreMode; 4] = [
    ScoreMode::Avg,
    ScoreMode::Max,
    ScoreMode::Total,
    ScoreMode::NoScore,
];

/// The matches in one segment, or the failure to open them.
type Matches = Result<Vec<(DocId, f32)>, &'static str>;

/// A query with given matches in each segment.
#[derive(Clone)]
struct ListQuery {
    name: &'static str,
    segments: Vec<Matches>,
    failure: Option<&'static str>,
    terms: Rc<Vec<(Term, bool)>>,
    opened: Rc<Cell<u32>>,
}

impl ListQuery {
    fn new(name: &'static str, segments: Vec<Matches>) -> ListQuery {
        ListQuery {
            name,
            segments,
            failure: None,
            terms: Rc::new(Vec::new()),
            opened: Rc::new(Cell::new(0)),
        }
    }

    fn ready(&self) -> ListWeight {
        ListWeight {
            segments: self.segments.clone(),
            opened: self.opened.clone(),
        }
    }
}

impl Query for ListQuery {
    fn model(&self) -> QueryModel {
        unreachable!()
    }

    fn weight(&self, _enable_scoring: EnableScoring<'_>) -> Result<Box<dyn Weight>, Error> {
        match self.failure {
            Some(message) => Err(failure(message)),
            None => Ok(Box::new(self.ready())),
        }
    }

    fn query_terms<'a>(&'a self, visited: &mut Vec<(&'a Term, bool)>) {
        for (term, positions) in self.terms.iter() {
            visited.push((term, *positions));
        }
    }

    fn debug_text(&self) -> String {
        self.name.to_string()
    }
}

struct ListWeight {
    segments: Vec<Matches>,
    opened: Rc<Cell<u32>>,
}

impl Weight for ListWeight {
    fn model(&self) -> WeightModel {
        unreachable!()
    }

    fn scorer(&self, reader: &SegmentReader, boost: &Score) -> Result<Box<dyn Scorer>, Error> {
        self.opened.set(self.opened.get() + 1);
        match &self.segments[reader.segment_ord as usize] {
            Err(message) => Err(failure(message)),
            Ok(matches) => Ok(Box::new(ListScorer {
                matches: matches.clone(),
                position: 0,
                boost: evaluate(boost),
            })),
        }
    }

    fn count(&self, reader: &SegmentReader) -> Result<u32, Error> {
        Ok(self.for_each(reader)?.len() as u32)
    }

    fn for_each(&self, reader: &SegmentReader) -> Result<Vec<(DocId, Score)>, Error> {
        let mut scorer = self.scorer(reader, &Score::one())?;
        let mut hits = Vec::new();
        while scorer.doc() != TERMINATED {
            hits.push((scorer.doc(), scorer.score()));
            scorer.advance();
        }
        Ok(hits)
    }
}

struct ListScorer {
    matches: Vec<(DocId, f32)>,
    position: usize,
    boost: f32,
}

impl Scorer for ListScorer {
    fn listing(&self) -> Listing {
        unreachable!()
    }

    fn inv(&self) -> bool {
        unreachable!()
    }

    fn idle_score(&self, _position: Position) -> ScoreTerm {
        unreachable!()
    }

    fn hint(&self, _position: Position) -> u32 {
        unreachable!()
    }

    fn advance(&mut self) -> DocId {
        self.position = (self.position + 1).min(self.matches.len());
        self.doc()
    }

    fn doc(&self) -> DocId {
        match self.matches.get(self.position) {
            Some((doc, _)) => *doc,
            None => TERMINATED,
        }
    }

    fn score(&mut self) -> Score {
        let score: f32 = self.matches[self.position].1 * self.boost;
        Score::Literal(score.to_bits())
    }

    fn size_hint(&self) -> u32 {
        self.matches.len() as u32
    }
}

fn failure(message: &str) -> Error {
    Error {
        message: message.to_string(),
    }
}

/// The value of a score.
fn evaluate(score: &Score) -> f32 {
    match score {
        Score::Literal(bits) => f32::from_bits(*bits),
        Score::Mean(scores) => scores.iter().map(evaluate).sum::<f32>() / scores.len() as f32,
        Score::Maximum(scores) => {
            let values = scores.iter().map(evaluate);
            values.reduce(f32::max).unwrap_or(f32::MIN)
        }
        Score::Sum(scores) => scores.iter().map(evaluate).sum(),
    }
}

fn plain(docs: &[DocId]) -> Matches {
    Ok(docs.iter().map(|doc| (*doc, 1.0)).collect())
}

fn segment(max_doc: DocId) -> SegmentReader {
    SegmentReader {
        segment_ord: 0,
        max_doc,
    }
}

fn searcher(max_docs: &[DocId]) -> Searcher {
    let mut segment_readers = Vec::new();
    for (ord, max_doc) in max_docs.iter().enumerate() {
        segment_readers.push(SegmentReader {
            segment_ord: ord as u32,
            max_doc: *max_doc,
        });
    }
    Searcher { segment_readers }
}

fn joined_weight(
    children: Matches,
    parents: Matches,
    score_mode: ScoreMode,
) -> BlockJoinWeight<ListWeight, ListWeight> {
    BlockJoinWeight {
        child_weight: Box::new(ListQuery::new("children", vec![children]).ready()),
        parents_weight: Box::new(ListQuery::new("parents", vec![parents]).ready()),
        score_mode,
    }
}

/// The parents that a join finds, with the values of their scores.
fn hits(
    children: Matches,
    parents: Matches,
    score_mode: ScoreMode,
    max_doc: DocId,
) -> Vec<(DocId, f32)> {
    joined_weight(children, parents, score_mode)
        .for_each(&segment(max_doc))
        .unwrap()
        .iter()
        .map(|(doc, score)| (*doc, evaluate(score)))
        .collect()
}

fn sample_children() -> Matches {
    Ok(vec![(0, 1.5), (2, 4.0), (4, 0.25), (5, 8.0)])
}

#[test]
fn average_of_each_block() {
    let found = hits(sample_children(), plain(&[3, 6]), ScoreMode::Avg, 7);
    assert_eq!(found, vec![(3, 2.75), (6, 4.125)]);
}

#[test]
fn maximum_of_each_block() {
    let found = hits(sample_children(), plain(&[3, 6]), ScoreMode::Max, 7);
    assert_eq!(found, vec![(3, 4.0), (6, 8.0)]);
}

#[test]
fn total_of_each_block() {
    let found = hits(sample_children(), plain(&[3, 6]), ScoreMode::Total, 7);
    assert_eq!(found, vec![(3, 5.5), (6, 8.25)]);
}

#[test]
fn unscored_parents_keep_their_scores() {
    let parents = Ok(vec![(1, 3.0), (3, 7.0), (6, 0.5)]);
    let found = hits(sample_children(), parents, ScoreMode::NoScore, 7);
    assert_eq!(found, vec![(1, 3.0), (3, 7.0), (6, 0.5)]);
    let parents = Ok(vec![(3, 7.0), (6, 0.5)]);
    let found = hits(plain(&[]), parents, ScoreMode::NoScore, 7);
    assert_eq!(found, vec![(3, 7.0), (6, 0.5)]);
    let found = hits(sample_children(), plain(&[3, 6]), ScoreMode::NoScore, 7);
    assert_eq!(found, vec![(3, 1.0), (6, 1.0)]);
}

#[test]
fn own_scores_do_not_enter_scores_from_children() {
    let parents = Ok(vec![(1, 3.0), (3, 7.0), (6, 0.5)]);
    let found = hits(sample_children(), parents, ScoreMode::Total, 7);
    assert_eq!(found, vec![(1, 1.5), (3, 4.0), (6, 8.25)]);
}

#[test]
fn the_maximum_is_a_score_of_a_child() {
    let children = Ok(vec![(0, f32::NEG_INFINITY)]);
    let found = hits(children, plain(&[1]), ScoreMode::Max, 2);
    assert_eq!(found, vec![(1, f32::NEG_INFINITY)]);
}

#[test]
fn documents_depend_on_the_parents_alone() {
    for mode in MODES {
        for children in [sample_children(), plain(&[]), plain(&[1, 2])] {
            let weight = joined_weight(children, plain(&[3, 6]), mode);
            let mut scorer = weight.scorer(&segment(7), &Score::one()).unwrap();
            assert_eq!(scorer.size_hint(), 2);
            assert_eq!(scorer.advance(), 3);
            assert_eq!(scorer.advance(), 6);
            assert_eq!(scorer.advance(), TERMINATED);
        }
    }
}

#[test]
fn scores_keep_the_order_of_the_children() {
    let weight = joined_weight(sample_children(), plain(&[6]), ScoreMode::Total);
    let found = weight.for_each(&segment(7)).unwrap();
    match &found[0].1 {
        Score::Sum(scores) => {
            let values: Vec<f32> = scores.iter().map(evaluate).collect();
            assert_eq!(values, vec![1.5, 4.0, 0.25, 8.0]);
        }
        other => panic!("not a sum: {:?}", other),
    }
}

#[test]
fn childless_parents_score_one() {
    for mode in [ScoreMode::Avg, ScoreMode::Max, ScoreMode::Total] {
        let parents = || Ok(vec![(1, 5.0), (3, 6.0)]);
        assert_eq!(
            hits(plain(&[]), parents(), mode, 4),
            vec![(1, 1.0), (3, 1.0)]
        );
        let found = hits(Ok(vec![(2, 9.0)]), parents(), mode, 4);
        assert_eq!(found[0], (1, 1.0));
    }
}

#[test]
fn parents_that_match_the_child_query_score_nobody() {
    let children = Ok(vec![(0, 2.0), (1, 50.0), (2, 3.0), (3, 70.0)]);
    let found = hits(children, plain(&[1, 3]), ScoreMode::Total, 4);
    assert_eq!(found, vec![(1, 2.0), (3, 3.0)]);
}

#[test]
fn children_behind_the_last_parent_score_nobody() {
    let children = Ok(vec![(0, 2.0), (2, 3.0), (3, 4.0)]);
    assert_eq!(
        hits(children, plain(&[1]), ScoreMode::Total, 4),
        vec![(1, 2.0)]
    );
}

#[test]
fn adjacent_parents_close_empty_blocks() {
    let children = Ok(vec![(1, 2.0), (4, 6.0)]);
    let found = hits(children, plain(&[0, 2, 3, 5]), ScoreMode::Max, 6);
    assert_eq!(found, vec![(0, 1.0), (2, 2.0), (3, 1.0), (5, 6.0)]);
}

#[test]
fn each_child_scores_once() {
    let children: Vec<(DocId, f32)> = (0..100).map(|doc| (doc, doc as f32)).collect();
    let parents: Vec<DocId> = vec![7, 8, 30, 64, 90];
    let expected: f32 = (0..90)
        .filter(|doc| !parents.contains(doc))
        .map(|doc| doc as f32)
        .sum();
    let found = hits(Ok(children), plain(&parents), ScoreMode::Total, 100);
    let docs: Vec<DocId> = found.iter().map(|hit| hit.0).collect();
    assert_eq!(docs, parents);
    // the block that the second parent closes is empty, and scores one
    assert_eq!(found[1].1, 1.0);
    let total: f32 = found.iter().map(|hit| hit.1).sum();
    assert_eq!(total, expected + 1.0);
}

#[test]
fn no_parents_no_matches() {
    let weight = joined_weight(sample_children(), plain(&[]), ScoreMode::Avg);
    let reader = segment(7);
    assert_eq!(weight.count(&reader).unwrap(), 0);
    assert!(weight.for_each(&reader).unwrap().is_empty());
    let mut scorer = weight.scorer(&reader, &Score::one()).unwrap();
    assert_eq!(scorer.doc(), TERMINATED);
    assert_eq!(scorer.advance(), TERMINATED);
    assert_eq!(evaluate(&scorer.score()), 0.0);
    assert_eq!(scorer.size_hint(), 0);
}

#[test]
fn children_are_not_asked_for_without_parents() {
    let children = ListQuery::new("children", vec![Err("broken")]);
    let weight = BlockJoinWeight {
        child_weight: Box::new(children.ready()),
        parents_weight: Box::new(ListQuery::new("parents", vec![plain(&[])]).ready()),
        score_mode: ScoreMode::Avg,
    };
    assert_eq!(weight.count(&segment(4)).unwrap(), 0);
    assert_eq!(children.opened.get(), 0);
}

#[test]
fn an_empty_walk_stands_on_nothing() {
    let mut scorer = EmptyScorer;
    assert_eq!(scorer.doc(), TERMINATED);
    assert_eq!(scorer.advance(), TERMINATED);
    assert_eq!(evaluate(&scorer.score()), 0.0);
    assert_eq!(scorer.size_hint(), 0);
}

#[test]
fn an_empty_segment_has_no_matches() {
    assert!(hits(plain(&[]), plain(&[]), ScoreMode::Avg, 0).is_empty());
}

#[test]
fn failures_of_the_sides_are_passed_on() {
    let reader = segment(4);
    let parents_fail = joined_weight(Err("children"), Err("parents"), ScoreMode::Avg);
    let error = parents_fail.scorer(&reader, &Score::one()).err().unwrap();
    assert_eq!(error.message, "parents");
    let children_fail = joined_weight(Err("children"), plain(&[1]), ScoreMode::Avg);
    let error = children_fail.scorer(&reader, &Score::one()).err().unwrap();
    assert_eq!(error.message, "children");
    assert_eq!(children_fail.count(&reader).err().unwrap().message, "children");
    let error = children_fail.for_each(&reader).err().unwrap();
    assert_eq!(error.message, "children");
}

#[test]
fn children_are_made_ready_first() {
    let searcher = searcher(&[4]);
    let mut children = ListQuery::new("children", vec![plain(&[0])]);
    let mut parents = ListQuery::new("parents", vec![plain(&[1])]);
    parents.failure = Some("parents");
    let query = BlockJoinQuery::new(
        Box::new(children.clone()),
        Box::new(parents.clone()),
        ScoreMode::Avg,
    );
    let scoring = EnableScoring::enabled_from_searcher(&searcher);
    assert_eq!(query.weight(scoring).err().unwrap().message, "parents");
    children.failure = Some("children");
    let query = BlockJoinQuery::new(Box::new(children), Box::new(parents), ScoreMode::Avg);
    assert_eq!(query.weight(scoring).err().unwrap().message, "children");
    assert_eq!(query.count(&searcher).err().unwrap().message, "children");
    let explained = query.explain(&searcher, DocAddress::new(0, 1));
    assert_eq!(explained.err().unwrap().message, "children");
}

#[test]
fn a_walk_stays_at_its_end() {
    let weight = joined_weight(sample_children(), plain(&[3, 6]), ScoreMode::Total);
    let mut scorer = weight.scorer(&segment(7), &Score::one()).unwrap();
    assert_eq!(scorer.doc(), TERMINATED);
    assert_eq!(evaluate(&scorer.score()), 1.0);
    assert_eq!(scorer.advance(), 3);
    assert_eq!(scorer.doc(), 3);
    assert_eq!(evaluate(&scorer.score()), 5.5);
    assert_eq!(evaluate(&scorer.score()), 5.5);
    assert_eq!(scorer.advance(), 6);
    assert_eq!(scorer.doc(), 6);
    for _ in 0..3 {
        assert_eq!(scorer.advance(), TERMINATED);
        assert_eq!(scorer.doc(), TERMINATED);
        assert_eq!(evaluate(&scorer.score()), 8.25);
    }
}

#[test]
fn the_size_hint_counts_the_parents() {
    let weight = joined_weight(plain(&[]), plain(&[1, 3, 70, 200]), ScoreMode::Avg);
    let mut scorer = weight.scorer(&segment(201), &Score::one()).unwrap();
    assert_eq!(scorer.size_hint(), 4);
    scorer.advance();
    assert_eq!(scorer.size_hint(), 4);
}

#[test]
fn full_words_of_documents_are_walked_to_the_end() {
    for max_doc in [64, 128, 192] {
        let parents: Vec<DocId> = vec![0, max_doc - 2, max_doc - 1];
        let found = hits(plain(&[]), plain(&parents), ScoreMode::Avg, max_doc);
        let docs: Vec<DocId> = found.iter().map(|hit| hit.0).collect();
        assert_eq!(docs, parents);
        let found = hits(plain(&[]), plain(&[1]), ScoreMode::Avg, max_doc);
        assert_eq!(found, vec![(1, 1.0)]);
    }
}

#[test]
fn the_boost_reaches_the_parents() {
    let parents = Ok(vec![(3, 7.0)]);
    let weight = joined_weight(sample_children(), parents, ScoreMode::NoScore);
    let boost = Score::Literal(2.0f32.to_bits());
    let mut scorer = weight.scorer(&segment(7), &boost).unwrap();
    assert_eq!(scorer.advance(), 3);
    assert_eq!(evaluate(&scorer.score()), 14.0);
}

#[test]
fn the_boost_reaches_the_children() {
    let weight = joined_weight(sample_children(), plain(&[3]), ScoreMode::Total);
    let boost = Score::Literal(2.0f32.to_bits());
    let mut scorer = weight.scorer(&segment(7), &boost).unwrap();
    assert_eq!(scorer.advance(), 3);
    assert_eq!(evaluate(&scorer.score()), 11.0);
}

#[test]
fn as_many_are_counted_as_reported() {
    let weight = joined_weight(sample_children(), plain(&[1, 3, 6]), ScoreMode::Max);
    let reader = segment(7);
    assert_eq!(weight.count(&reader).unwrap(), 3);
    assert_eq!(weight.for_each(&reader).unwrap().len(), 3);
}

#[test]
fn a_join_is_the_same_each_time() {
    let weight = joined_weight(sample_children(), plain(&[1, 3, 6]), ScoreMode::Avg);
    let reader = segment(7);
    let first = format!("{:?}", weight.for_each(&reader).unwrap());
    let second = format!("{:?}", weight.for_each(&reader).unwrap());
    assert_eq!(first, second);
}

#[test]
fn matches_are_counted_over_all_segments() {
    let searcher = searcher(&[4, 2, 7]);
    let children = ListQuery::new("children", vec![plain(&[0]), plain(&[]), plain(&[1])]);
    let parents = ListQuery::new(
        "parents",
        vec![plain(&[1, 3]), plain(&[]), plain(&[2, 4, 6])],
    );
    let query = BlockJoinQuery::new(Box::new(children), Box::new(parents), ScoreMode::Avg);
    assert_eq!(query.count(&searcher).unwrap(), 5);
}

#[test]
fn a_failing_segment_fails_the_count() {
    let searcher = searcher(&[4, 4]);
    let children = ListQuery::new("children", vec![plain(&[0]), plain(&[0])]);
    let parents = ListQuery::new("parents", vec![plain(&[1]), Err("second segment")]);
    let query = BlockJoinQuery::new(Box::new(children), Box::new(parents), ScoreMode::Avg);
    let error = query.count(&searcher).err().unwrap();
    assert_eq!(error.message, "second segment");
}

#[test]
fn explanations_give_the_score() {
    let searcher = searcher(&[2, 7]);
    let children = ListQuery::new("children", vec![plain(&[]), sample_children()]);
    let parents = ListQuery::new("parents", vec![plain(&[]), plain(&[3, 6])]);
    let query = BlockJoinQuery::new(Box::new(children), Box::new(parents), ScoreMode::Avg);
    for (doc_id, value) in [(3, 2.75), (6, 4.125), (0, 0.0), (4, 0.0), (TERMINATED, 1.0)] {
        let explanation = query.explain(&searcher, DocAddress::new(1, doc_id)).unwrap();
        assert_eq!(evaluate(explanation.value()), value);
        assert_eq!(explanation.description(), "BlockJoinQuery");
        assert_eq!(explanation.details().len(), 1);
        let detail = &explanation.details()[0];
        assert_eq!(detail.description(), "score");
        assert_eq!(evaluate(detail.value()), value);
        assert!(detail.details().is_empty());
    }
    for doc_id in [1, TERMINATED] {
        let explanation = query.explain(&searcher, DocAddress::new(0, doc_id)).unwrap();
        assert_eq!(evaluate(explanation.value()), 0.0);
    }
}

#[test]
fn a_failing_segment_fails_the_explanation() {
    let searcher = searcher(&[4]);
    let children = ListQuery::new("children", vec![Err("broken")]);
    let parents = ListQuery::new("parents", vec![plain(&[1])]);
    let query = BlockJoinQuery::new(Box::new(children), Box::new(parents), ScoreMode::Avg);
    let explained = query.explain(&searcher, DocAddress::new(0, 1));
    assert_eq!(explained.err().unwrap().message, "broken");
}

#[test]
fn the_terms_of_the_children_come_first() {
    let term = |text: &str| Term {
        field: 7,
        text: text.to_string(),
    };
    let mut children = ListQuery::new("children", Vec::new());
    children.terms = Rc::new(vec![(term("java"), true), (term("rust"), false)]);
    let mut parents = ListQuery::new("parents", Vec::new());
    parents.terms = Rc::new(vec![(term("resume"), false)]);
    let query = BlockJoinQuery::new(Box::new(children), Box::new(parents), ScoreMode::Avg);
    let first = term("first");
    let mut visited = vec![(&first, true)];
    query.query_terms(&mut visited);
    let texts: Vec<(&str, bool)> = visited
        .iter()
        .map(|(term, positions)| (term.text.as_str(), *positions))
        .collect();
    assert_eq!(
        texts,
        vec![
            ("first", true),
            ("java", true),
            ("rust", false),
            ("resume", false)
        ]
    );
}

#[test]
fn joins_are_written_out() {
    let words = ["Avg", "Max", "Total", "None"];
    for (mode, word) in MODES.iter().zip(words) {
        let query = BlockJoinQuery::new(
            Box::new(ListQuery::new("A", Vec::new())),
            Box::new(ListQuery::new("B", Vec::new())),
            *mode,
        );
        assert_eq!(
            query.debug_text(),
            format!(
                "BlockJoinQuery(child_query: A, parents_filter: B, score_mode: {})",
                word
            )
        );
    }
}

#[test]
fn the_default_mode_is_the_average() {
    assert!(ScoreMode::default() == ScoreMode::Avg);
}

#[test]
fn copies_of_joins_join_the_same() {
    let searcher = searcher(&[7]);
    let query = BlockJoinQuery::new(
        Box::new(ListQuery::new("children", vec![sample_children()])),
        Box::new(ListQuery::new("parents", vec![plain(&[3, 6])])),
        ScoreMode::Max,
    );
    let copy = query.clone();
    assert_eq!(copy.debug_text(), query.debug_text());
    let explanation = copy.explain(&searcher, DocAddress::new(0, 6)).unwrap();
    assert_eq!(evaluate(explanation.value()), 8.0);
}

#[test]
fn queries_of_any_kind_can_be_joined() {
    let searcher = searcher(&[7]);
    let children: Box<dyn Query> =
        Box::new(ListQuery::new("children", vec![sample_children()]));
    let parents: Box<dyn Query> = Box::new(ListQuery::new("parents", vec![plain(&[3, 6])]));
    let query: BlockJoinQuery = BlockJoinQuery::new(children, parents, ScoreMode::Total);
    assert_eq!(query.count(&searcher).unwrap(), 2);
}

#[test]
fn copies_of_scores_have_the_same_value() {
    let leaf = |value: f32| Score::Literal(value.to_bits());
    let score = Score::Mean(vec![
        Score::Maximum(vec![leaf(1.0), leaf(5.0)]),
        Score::Sum(vec![leaf(2.0), leaf(3.0), leaf(4.0)]),
    ]);
    assert_eq!(evaluate(&score), 7.0);
    assert_eq!(evaluate(&score.clone()), 7.0);
    assert_eq!(format!("{:?}", score.clone()), format!("{:?}", score));
}

#[test]
fn a_join_can_be_a_side_of_a_join() {
    let inner = |name| {
        BlockJoinQuery::new(
            Box::new(ListQuery::new(name, vec![Ok(vec![(0, 9.0)])])),
            Box::new(ListQuery::new(name, vec![plain(&[1])])),
            ScoreMode::Total,
        )
    };
    let searcher = searcher(&[4]);
    let outer = BlockJoinQuery::new(
        Box::new(inner("children")),
        Box::new(ListQuery::new("parents", vec![plain(&[3])])),
        ScoreMode::Total,
    );
    let explanation = outer.explain(&searcher, DocAddress::new(0, 3)).unwrap();
    assert_eq!(evaluate(explanation.value()), 9.0);
    let outer = BlockJoinQuery::new(
        Box::new(ListQuery::new("children", vec![plain(&[0])])),
        Box::new(inner("parents")),
        ScoreMode::NoScore,
    );
    assert_eq!(outer.count(&searcher).unwrap(), 1);
    let explanation = outer.explain(&searcher, DocAddress::new(0, 1)).unwrap();
    assert_eq!(evaluate(explanation.value()), 9.0);
}

#[test]
fn collected_parents_are_what_the_walk_meets() {
    let mut scorer = Box::new(ListScorer {
        matches: vec![(1, 1.0), (63, 2.0), (64, 3.0), (99, 4.0)],
        position: 1,
        boost: 1.0,
    });
    let parents = collect_parents(&mut scorer, 100);
    assert_eq!(parents.docs.len(), 3);
    assert_eq!(parents.docs.max_value(), 100);
    for doc in 0..100 {
        assert_eq!(parents.docs.contains(doc), [63, 64, 99].contains(&doc));
    }
    let scores: Vec<f32> = parents.scores.iter().map(evaluate).collect();
    assert_eq!(scores, vec![2.0, 3.0, 4.0]);
    assert_eq!(scorer.doc(), TERMINATED);
}

#[test]
fn initializing_is_the_first_step() {
    let child_scorer = Box::new(ListScorer {
        matches: vec![(0, 2.0), (1, 4.0), (3, 5.0)],
        position: 0,
        boost: 1.0,
    });
    let mut parents = Box::new(ListScorer {
        matches: vec![(2, 1.0), (4, 1.0)],
        position: 0,
        boost: 1.0,
    });
    let parents_found = collect_parents(&mut parents, 5);
    let mut scorer =
        BlockJoinScorer::over(Ok(child_scorer), parents_found, ScoreMode::Avg).unwrap();
    scorer.initialize();
    assert_eq!(scorer.doc(), 2);
    assert_eq!(evaluate(&scorer.score()), 3.0);
    scorer.initialize();
    assert_eq!(scorer.doc(), 2);
    assert_eq!(scorer.advance(), 4);
    assert_eq!(evaluate(&scorer.score()), 5.0);
    scorer.initialize();
    assert_eq!(scorer.doc(), 4);
    assert_eq!(scorer.advance(), TERMINATED);
}

#[test]
fn initializing_without_parents_ends_the_walk() {
    let matches = || {
        Box::new(ListScorer {
            matches: Vec::new(),
            position: 0,
            boost: 1.0,
        })
    };
    let parents_found = collect_parents(&mut matches(), 5);
    let mut scorer =
        BlockJoinScorer::over(Ok(matches()), parents_found, ScoreMode::Total).unwrap();
    scorer.initialize();
    assert_eq!(scorer.doc(), TERMINATED);
    assert_eq!(scorer.advance(), TERMINATED);
    assert_eq!(evaluate(&scorer.score()), 1.0);
}

#[test]
fn no_walk_over_children_no_join() {
    let mut parents = Box::new(ListScorer {
        matches: vec![(2, 1.0)],
        position: 0,
        boost: 1.0,
    });
    let parents_found = collect_parents(&mut parents, 5);
    let children: Result<Box<ListScorer>, Error> = Err(failure("no walk"));
    let scorer = BlockJoinScorer::over(children, parents_found, ScoreMode::Total);
    assert_eq!(scorer.err().unwrap().message, "no walk");
}

#[test]
fn a_document_has_the_score_of_the_walk() {
    let weight = joined_weight(sample_children(), plain(&[3, 6]), ScoreMode::Max);
    let walk = |doc| {
        let opened = weight.open(&segment(7), &Score::one()).unwrap();
        evaluate(&score_at(opened, doc))
    };
    assert_eq!(walk(3), 4.0);
    assert_eq!(walk(6), 8.0);
    assert_eq!(walk(5), 0.0);
    let none: Option<BlockJoinScorer<ListScorer>> = None;
    assert_eq!(evaluate(&score_at(none, 3)), 0.0);
}
