use std::rc::Rc;

use block_join::block_join_query::BlockJoinQuery;
use block_join::block_join_weight::BlockJoinWeight;
use block_join::error::Error;
use block_join::postings::{DocId, Listing, Position, TERMINATED};
use block_join::query::{DocAddress, EnableScoring, Query, QueryModel, Searcher, Term};
use block_join::score::{Score, ScoreMode, ScoreTerm};
use block_join::scorer::Scorer;
use block_join::weight::{SegmentReader, Weight, WeightModel};

/// A document: its fields with their texts.
type Document = Vec<(&'static str, &'static str)>;

/// An index of one segment, held in memory.
struct Index {
    documents: Vec<Document>,
}

impl Index {
    fn create(blocks: Vec<Vec<Document>>) -> Rc<Index> {
        Rc::new(Index {
            documents: blocks.into_iter().flatten().collect(),
        })
    }

    fn searcher(&self) -> Searcher {
        Searcher {
            segment_readers: vec![SegmentReader {
                segment_ord: 0,
                max_doc: self.documents.len() as u32,
            }],
        }
    }

    fn text(&self, address: DocAddress, field: &str) -> &'static str {
        assert_eq!(address.segment_ord, 0);
        self.documents[address.doc_id as usize]
            .iter()
            .find(|(name, _)| *name == field)
            .unwrap()
            .1
    }
}

/// Matches the documents with a text in a field.
#[derive(Clone)]
struct TermQuery {
    index: Rc<Index>,
    field: &'static str,
    text: &'static str,
}

impl TermQuery {
    fn new(index: &Rc<Index>, field: &'static str, text: &'static str) -> TermQuery {
        TermQuery {
            index: index.clone(),
            field,
            text,
        }
    }
}

impl Query for TermQuery {
    fn model(&self) -> QueryModel {
        unreachable!()
    }

    fn weight(&self, enable_scoring: EnableScoring<'_>) -> Result<Box<dyn Weight>, Error> {
        let docs: Vec<DocId> = self
            .index
            .documents
            .iter()
            .enumerate()
            .filter(|(_, document)| document.contains(&(self.field, self.text)))
            .map(|(doc, _)| doc as u32)
            .collect();
        let all = self.index.documents.len() as f32;
        let matching = docs.len() as f32;
        let score = match enable_scoring {
            EnableScoring::Enabled(_) => (1.0 + (all - matching + 0.5) / (matching + 0.5)).ln(),
            EnableScoring::Disabled(_) => 1.0,
        };
        Ok(Box::new(TermWeight { docs, score }))
    }

    fn query_terms<'a>(&'a self, _visited: &mut Vec<(&'a Term, bool)>) {}

    fn debug_text(&self) -> String {
        format!("TermQuery({}:{})", self.field, self.text)
    }
}

struct TermWeight {
    docs: Vec<DocId>,
    score: f32,
}

impl Weight for TermWeight {
    fn model(&self) -> WeightModel {
        unreachable!()
    }

    fn scorer(&self, _reader: &SegmentReader, boost: &Score) -> Result<Box<dyn Scorer>, Error> {
        Ok(Box::new(TermScorer {
            docs: self.docs.clone(),
            position: 0,
            score: self.score * evaluate(boost),
        }))
    }

    fn count(&self, _reader: &SegmentReader) -> Result<u32, Error> {
        Ok(self.docs.len() as u32)
    }

    fn for_each(&self, reader: &SegmentReader) -> Result<Vec<(DocId, Score)>, Error> {
        let mut scorer = self.scorer(reader, &Score::one())?;
        let mut hits = Vec::new();
        let mut doc = scorer.doc();
        while doc != TERMINATED {
            hits.push((doc, scorer.score()));
            doc = scorer.advance();
        }
        Ok(hits)
    }
}

struct TermScorer {
    docs: Vec<DocId>,
    position: usize,
    score: f32,
}

impl Scorer for TermScorer {
    fn listing(&self) -> Listing {
        unreachable!()
    }

    fn inv(&self) -> bool {
        unreachable!()
    }

    fn idle_score(&self, _position: Position) -> ScoreTerm {
        unreachable!()
    }

    fn hint(&self, _position: Position) -> u32 {
        unreachable!()
    }

    fn advance(&mut self) -> DocId {
        self.position += 1;
        self.doc()
    }

    fn doc(&self) -> DocId {
        self.docs.get(self.position).copied().unwrap_or(TERMINATED)
    }

    fn score(&mut self) -> Score {
        Score::Literal(self.score.to_bits())
    }

    fn size_hint(&self) -> u32 {
        self.docs.len() as u32
    }
}

/// The value of a score.
fn evaluate(score: &Score) -> f32 {
    match score {
        Score::Literal(bits) => f32::from_bits(*bits),
        Score::Mean(scores) => scores.iter().map(evaluate).sum::<f32>() / scores.len() as f32,
        Score::Maximum(scores) => {
            let values = scores.iter().map(evaluate);
            values.reduce(f32::max).unwrap_or(f32::MIN)
        }
        Score::Sum(scores) => scores.iter().map(evaluate).sum(),
    }
}

/// The best matches: the highest scores first, then the lowest addresses.
fn search(
    searcher: &Searcher,
    query: &dyn Query,
    limit: usize,
) -> Result<Vec<(f32, DocAddress)>, Error> {
    let weight = query.weight(EnableScoring::enabled_from_searcher(searcher))?;
    let mut found = Vec::new();
    for reader in &searcher.segment_readers {
        for (doc, score) in weight.for_each(reader)? {
            found.push((evaluate(&score), DocAddress::new(reader.segment_ord, doc)));
        }
    }
    found.sort_by(|a, b| b.0.partial_cmp(&a.0).unwrap().then(a.1.doc_id.cmp(&b.1.doc_id)));
    found.truncate(limit);
    Ok(found)
}

/// The weight of a join that scores no parent from its children.
fn unscored_weight(
    index: &Rc<Index>,
    searcher: &Searcher,
) -> Result<BlockJoinWeight<dyn Weight, dyn Weight>, Error> {
    let parent_query = TermQuery::new(index, "docType", "resume");
    let child_query = TermQuery::new(index, "docType", "child");
    Ok(BlockJoinWeight {
        child_weight: child_query.weight(EnableScoring::disabled_from_searcher(searcher))?,
        parents_weight: parent_query.weight(EnableScoring::disabled_from_searcher(searcher))?,
        score_mode: ScoreMode::NoScore,
    })
}

/// Two blocks of jobs, each closed by a resume.
fn create_test_index() -> Rc<Index> {
    Index::create(vec![
        vec![
            vec![("skill", "java"), ("docType", "job")],
            vec![("skill", "python"), ("docType", "job")],
            vec![("skill", "java"), ("docType", "job")],
            vec![
                ("name", "Lisa"),
                ("country", "United Kingdom"),
                ("docType", "resume"),
            ],
        ],
        vec![
            vec![("skill", "ruby"), ("docType", "job")],
            vec![("skill", "java"), ("docType", "job")],
            vec![
                ("name", "Frank"),
                ("country", "United States"),
                ("docType", "resume"),
            ],
        ],
    ])
}

/// One child and its parent.
fn create_minimal_index() -> Rc<Index> {
    Index::create(vec![vec![
        vec![("content", "child content"), ("docType", "child")],
        vec![("content", "resume content"), ("docType", "resume")],
    ]])
}

/// Two blocks of one child each.
fn create_scorer_test_index() -> Rc<Index> {
    Index::create(vec![vec![
        vec![("content", "first child"), ("docType", "child")],
        vec![("content", "first resume"), ("docType", "resume")],
        vec![("content", "second child"), ("docType", "child")],
        vec![("content", "second resume"), ("docType", "resume")],
    ]])
}

/// One child and its parent, without contents.
fn create_single_block_index() -> Rc<Index> {
    Index::create(vec![vec![
        vec![("docType", "child")],
        vec![("docType", "resume")],
    ]])
}

/// Two blocks of one child each, without contents.
fn create_advancement_index() -> Rc<Index> {
    Index::create(vec![vec![
        vec![("docType", "child")],
        vec![("docType", "resume")],
        vec![("docType", "child")],
        vec![("docType", "resume")],
    ]])
}

/// A block of two children and a block of one.
fn create_membership_index() -> Rc<Index> {
    Index::create(vec![
        vec![
            vec![("docType", "child")],
            vec![("docType", "child")],
            vec![("docType", "resume")],
        ],
        vec![vec![("docType", "child")], vec![("docType", "resume")]],
    ])
}

#[test]
fn test_simple_block_join() -> Result<(), Error> {
    let index = create_test_index();
    let searcher = index.searcher();
    let parent_query = TermQuery::new(&index, "docType", "resume");
    let child_query = TermQuery::new(&index, "skill", "java");
    let block_join_query = BlockJoinQuery::new(
        Box::new(child_query),
        Box::new(parent_query),
        ScoreMode::Avg,
    );

    let top_docs = search(&searcher, &block_join_query, 1)?;
    assert_eq!(top_docs.len(), 1, "Should find 1 top document");
    assert_eq!(
        index.text(top_docs[0].1, "name"),
        "Lisa",
        "Expected top document to be 'Lisa'"
    );
    Ok(())
}

#[test]
fn test_block_join_scoring() -> Result<(), Error> {
    let index = create_test_index();
    let searcher = index.searcher();
    let parent_query = TermQuery::new(&index, "docType", "resume");
    let child_query = TermQuery::new(&index, "skill", "java");
    let block_join_query = BlockJoinQuery::new(
        Box::new(child_query),
        Box::new(parent_query),
        ScoreMode::Avg,
    );

    let top_docs = search(&searcher, &block_join_query, 1)?;
    assert_eq!(top_docs.len(), 1, "Should find 1 top document");
    assert!(
        top_docs[0].0 > 0.0,
        "Top document score should be greater than 0.0"
    );
    Ok(())
}

#[test]
fn test_explain_block_join() -> Result<(), Error> {
    let index = create_test_index();
    let searcher = index.searcher();
    let parent_query = TermQuery::new(&index, "docType", "resume");
    let child_query = TermQuery::new(&index, "skill", "java");
    let block_join_query = BlockJoinQuery::new(
        Box::new(child_query),
        Box::new(parent_query),
        ScoreMode::Avg,
    );

    let explanation = block_join_query.explain(&searcher, DocAddress::new(0, 3))?;
    assert!(
        evaluate(explanation.value()) > 0.0,
        "Explanation score should be greater than 0.0"
    );
    Ok(())
}

#[test]
fn test_parent_filter_only() -> Result<(), Error> {
    let index = create_minimal_index();
    let searcher = index.searcher();
    let parent_query = TermQuery::new(&index, "docType", "resume");

    let top_docs = search(&searcher, &parent_query, 1)?;
    assert_eq!(top_docs.len(), 1, "Should find exactly one parent document");
    Ok(())
}

#[test]
fn test_child_query_only() -> Result<(), Error> {
    let index = create_minimal_index();
    let searcher = index.searcher();
    let child_query = TermQuery::new(&index, "docType", "child");

    let top_docs = search(&searcher, &child_query, 1)?;
    assert_eq!(top_docs.len(), 1, "Should find exactly one child document");
    Ok(())
}

#[test]
fn test_parent_bitset_creation() -> Result<(), Error> {
    let index = create_minimal_index();
    let searcher = index.searcher();
    let segment_reader = searcher.segment_reader(0);
    let parent_query = TermQuery::new(&index, "docType", "resume");

    let parent_weight = parent_query.weight(EnableScoring::disabled_from_searcher(&searcher))?;
    let mut parent_scorer = parent_weight.scorer(segment_reader, &Score::one())?;
    let mut parent_docs = Vec::new();
    while parent_scorer.doc() != TERMINATED {
        parent_docs.push(parent_scorer.doc());
        parent_scorer.advance();
    }

    assert_eq!(
        parent_docs.len(),
        1,
        "Should find exactly one parent document"
    );
    assert_eq!(parent_docs[0], 1, "Parent document should be at position 1");
    Ok(())
}

#[test]
fn test_minimal_block_join() -> Result<(), Error> {
    let index = create_minimal_index();
    let searcher = index.searcher();
    let parent_query = TermQuery::new(&index, "docType", "resume");
    let child_query = TermQuery::new(&index, "docType", "child");
    let block_join_query = BlockJoinQuery::new(
        Box::new(child_query),
        Box::new(parent_query),
        ScoreMode::NoScore,
    );

    let top_docs = search(&searcher, &block_join_query, 1)?;
    assert_eq!(top_docs.len(), 1, "Should find exactly one document");
    let content = index.text(top_docs[0].1, "content");
    assert_eq!(content, "resume content", "Should retrieve parent document");
    Ok(())
}

#[test]
fn minimal_block_join_over_two_blocks() -> Result<(), Error> {
    let index = create_scorer_test_index();
    let searcher = index.searcher();
    let parent_query = TermQuery::new(&index, "docType", "resume");
    let child_query = TermQuery::new(&index, "docType", "child");
    let block_join_query = BlockJoinQuery::new(
        Box::new(child_query),
        Box::new(parent_query),
        ScoreMode::NoScore,
    );

    let top_docs = search(&searcher, &block_join_query, 1)?;
    assert_eq!(top_docs.len(), 1);
    assert_eq!(index.text(top_docs[0].1, "content"), "first resume");
    Ok(())
}

#[test]
fn block_join_query_test_parent_filter_only() -> Result<(), Error> {
    let index = create_scorer_test_index();
    let searcher = index.searcher();
    let parent_query = TermQuery::new(&index, "docType", "resume");

    let top_docs = search(&searcher, &parent_query, 1)?;
    assert_eq!(top_docs.len(), 1, "Should find exactly one parent document");
    Ok(())
}

#[test]
fn block_join_query_test_child_query_only() -> Result<(), Error> {
    let index = create_scorer_test_index();
    let searcher = index.searcher();
    let child_query = TermQuery::new(&index, "docType", "child");

    let top_docs = search(&searcher, &child_query, 1)?;
    assert_eq!(top_docs.len(), 1, "Should find exactly one child document");
    Ok(())
}

#[test]
fn block_join_query_test_parent_bitset_creation() -> Result<(), Error> {
    let index = create_scorer_test_index();
    let searcher = index.searcher();
    let segment_reader = searcher.segment_reader(0);
    let parent_query = TermQuery::new(&index, "docType", "resume");

    let parent_weight = parent_query.weight(EnableScoring::disabled_from_searcher(&searcher))?;
    let mut parent_scorer = parent_weight.scorer(segment_reader, &Score::one())?;
    let mut parent_docs = Vec::new();
    while parent_scorer.doc() != TERMINATED {
        parent_docs.push(parent_scorer.doc());
        parent_scorer.advance();
    }

    assert_eq!(
        parent_docs.len(),
        2,
        "Should find exactly two parent documents"
    );
    assert_eq!(
        parent_docs,
        vec![1, 3],
        "Parents should be at positions 1 and 3"
    );
    Ok(())
}

#[test]
fn test_first_advance_behavior() -> Result<(), Error> {
    let index = create_single_block_index();
    let searcher = index.searcher();
    let segment_reader = searcher.segment_reader(0);
    let block_join_weight = unscored_weight(&index, &searcher)?;

    let mut scorer = block_join_weight.scorer(segment_reader, &Score::one())?;
    println!("Initial doc: {}", scorer.doc());

    let first_doc = scorer.advance();
    println!("After first advance: {}", first_doc);
    assert_eq!(
        first_doc, 1,
        "First advance should find parent at position 1"
    );

    let next_doc = scorer.advance();
    println!("After second advance: {}", next_doc);
    assert_eq!(
        next_doc, TERMINATED,
        "Second advance should return TERMINATED"
    );
    Ok(())
}

#[test]
fn block_join_query_test_block_join_scoring() -> Result<(), Error> {
    let index = create_single_block_index();
    let searcher = index.searcher();
    let segment_reader = searcher.segment_reader(0);
    let block_join_weight = unscored_weight(&index, &searcher)?;

    let mut scorer = block_join_weight.scorer(segment_reader, &Score::one())?;
    let doc = scorer.advance();
    assert_eq!(doc, 1, "Should find parent at position 1");

    let score = evaluate(&scorer.score());
    assert_eq!(score, 1.0, "Score should be 1.0 with ScoreMode::None");
    Ok(())
}

#[test]
fn test_initial_scorer_state() -> Result<(), Error> {
    let index = create_advancement_index();
    let searcher = index.searcher();
    let segment_reader = searcher.segment_reader(0);
    let block_join_weight = unscored_weight(&index, &searcher)?;

    let mut scorer = block_join_weight.scorer(segment_reader, &Score::one())?;
    assert_eq!(scorer.doc(), TERMINATED, "Should start at TERMINATED");

    let first_doc = scorer.advance();
    assert_eq!(
        first_doc, 1,
        "First advance should find parent at position 1"
    );

    let second_doc = scorer.advance();
    assert_eq!(
        second_doc, 3,
        "Second advance should find parent at position 3"
    );

    let third_doc = scorer.advance();
    assert_eq!(
        third_doc, TERMINATED,
        "Third advance should return TERMINATED"
    );
    Ok(())
}

#[test]
fn advancement_test_block_join_scoring() -> Result<(), Error> {
    let index = create_advancement_index();
    let searcher = index.searcher();
    let segment_reader = searcher.segment_reader(0);
    let block_join_weight = unscored_weight(&index, &searcher)?;

    let mut scorer = block_join_weight.scorer(segment_reader, &Score::one())?;
    let first_doc = scorer.advance();
    assert_eq!(first_doc, 1, "Should find parent at position 1");
    let score = evaluate(&scorer.score());
    assert_eq!(score, 1.0, "Score should be 1.0 with ScoreMode::None");

    let second_doc = scorer.advance();
    assert_eq!(second_doc, 3, "Should find parent at position 3");
    let score = evaluate(&scorer.score());
    assert_eq!(score, 1.0, "Score should be 1.0 with ScoreMode::None");
    Ok(())
}

#[test]
fn test_child_block_membership() -> Result<(), Error> {
    let index = create_membership_index();
    let searcher = index.searcher();
    let segment_reader = searcher.segment_reader(0);
    let block_join_weight = unscored_weight(&index, &searcher)?;

    let mut scorer = block_join_weight.scorer(segment_reader, &Score::one())?;
    let first_doc = scorer.advance();
    assert_eq!(first_doc, 2, "First parent should be at position 2");
    assert_eq!(
        evaluate(&scorer.score()),
        1.0,
        "Score should be 1.0 with ScoreMode::None"
    );

    let second_doc = scorer.advance();
    assert_eq!(second_doc, 4, "Second parent should be at position 4");
    assert_eq!(
        evaluate(&scorer.score()),
        1.0,
        "Score should be 1.0 with ScoreMode::None"
    );
    Ok(())
}

#[test]
fn test_collect_matches_block_boundaries() -> Result<(), Error> {
    let index = create_membership_index();
    let searcher = index.searcher();
    let parent_query = TermQuery::new(&index, "docType", "resume");
    let child_query = TermQuery::new(&index, "docType", "child");

    let parent_docs = search(&searcher, &parent_query, 10)?;
    println!(
        "\n=== Parent documents found directly ({} results) ===",
        parent_docs.len()
    );
    for (i, doc) in parent_docs.iter().enumerate() {
        println!("Parent {}: doc_id={}, score={}", i, doc.1.doc_id, doc.0);
    }

    println!("\n=== Testing block join query ===");
    let block_join_query = BlockJoinQuery::new(
        Box::new(child_query.clone()),
        Box::new(parent_query.clone()),
        ScoreMode::NoScore,
    );

    println!("\n=== Searching with collector (limit: 10) ===");
    let top_docs = search(&searcher, &block_join_query, 10)?;
    println!(
        "\n=== Search completed, found {} results ===",
        top_docs.len()
    );
    for (i, doc) in top_docs.iter().enumerate() {
        println!("Result {}: doc_id={}, score={}", i, doc.1.doc_id, doc.0);
    }

    println!("\nAsserting results...");
    assert_eq!(top_docs.len(), 2, "Should find both parent documents");
    let mut result_ids: Vec<DocId> = top_docs.iter().map(|(_score, doc)| doc.doc_id).collect();
    result_ids.sort_unstable();
    println!("Sorted result IDs: {:?}", result_ids);
    assert_eq!(result_ids[0], 2, "Should find parent at position 2");
    assert_eq!(result_ids[1], 4, "Should find parent at position 4");
    Ok(())
}

#[test]
fn test_scorer_behavior() -> Result<(), Error> {
    let index = create_membership_index();
    let searcher = index.searcher();
    let segment_reader = searcher.segment_reader(0);
    let parent_query = TermQuery::new(&index, "docType", "resume");
    let child_query = TermQuery::new(&index, "docType", "child");

    println!("\n=== Creating block join scorer ===");
    let block_join_query = BlockJoinQuery::new(
        Box::new(child_query),
        Box::new(parent_query),
        ScoreMode::NoScore,
    );
    let weight = block_join_query.weight(EnableScoring::disabled_from_searcher(&searcher))?;
    let mut scorer = weight.scorer(segment_reader, &Score::one())?;

    println!("\n=== Testing scorer directly ===");
    let mut docs = Vec::new();
    let initial_doc = scorer.doc();
    println!("Initial doc: {}", initial_doc);

    let mut current = scorer.advance();
    println!("First advance: {}", current);
    while current != TERMINATED {
        docs.push(current);
        current = scorer.advance();
        println!("Advanced to: {}", current);
    }

    println!("\nCollected docs: {:?}", docs);
    assert!(!docs.is_empty(), "Scorer should find documents");
    assert_eq!(docs.len(), 2, "Should find both parents");
    assert_eq!(docs[0], 2, "First parent should be at position 2");
    assert_eq!(docs[1], 4, "Second parent should be at position 4");
    Ok(())
}
