//! Queries, and what they are run on.
use vstd::prelude::*;

use crate::error::Error;
use crate::postings::DocId;
use crate::score::{Score, ScoreTerm};
use crate::weight::{SegmentReader, Weight, WeightModel};

verus! {

/// A text in a field of the index.
#[derive(Debug)]
pub struct Term {
    pub field: u32,
    pub text: String,
}

/// Names a document: its segment, and its number there.
#[derive(Clone, Copy, Debug, PartialEq, Eq, Structural)]
pub struct DocAddress {
    pub segment_ord: u32,
    pub doc_id: DocId,
}

impl DocAddress {
    pub fn new(segment_ord: u32, doc_id: DocId) -> (address: DocAddress)
        ensures
            address == (DocAddress { segment_ord, doc_id }),
    {
        DocAddress { segment_ord, doc_id }
    }
}

/// The segments of an index.
#[derive(Debug)]
pub struct Searcher {
    pub segment_readers: Vec<SegmentReader>,
}

impl View for Searcher {
    type V = Seq<SegmentReader>;

    open spec fn view(&self) -> Seq<SegmentReader> {
        self.segment_readers@
    }
}

impl Searcher {
    /// The segment with the given place.
    pub fn segment_reader(&self, segment_ord: u32) -> (reader: &SegmentReader)
        requires
            segment_ord < self@.len(),
        ensures
            *reader == self@[segment_ord as int],
    {
        &self.segment_readers[segment_ord as usize]
    }
}

/// Whether the matches of a query are going to be scored, and in which segments.
#[derive(Clone, Copy, Debug)]
pub enum EnableScoring<'a> {
    Enabled(&'a Searcher),
    Disabled(&'a Searcher),
}

/// The mathematical content of [`EnableScoring`].
pub struct Scoring {
    pub enabled: bool,
    pub segments: Seq<SegmentReader>,
}

impl<'a> View for EnableScoring<'a> {
    type V = Scoring;

    open spec fn view(&self) -> Scoring {
        match self {
            EnableScoring::Enabled(searcher) => Scoring { enabled: true, segments: searcher@ },
            EnableScoring::Disabled(searcher) => Scoring { enabled: false, segments: searcher@ },
        }
    }
}

impl<'a> EnableScoring<'a> {
    /// Scores the matches.
    pub fn enabled_from_searcher(searcher: &'a Searcher) -> (scoring: EnableScoring<'a>)
        ensures
            scoring@ == (Scoring { enabled: true, segments: searcher@ }),
    {
        EnableScoring::Enabled(searcher)
    }

    /// Does not score the matches.
    pub fn disabled_from_searcher(searcher: &'a Searcher) -> (scoring: EnableScoring<'a>)
        ensures
            scoring@ == (Scoring { enabled: false, segments: searcher@ }),
    {
        EnableScoring::Disabled(searcher)
    }
}

/// What can come of making a query ready to run.
pub type Readied = Result<WeightModel, Error>;

/// What came of making a query ready to run.
pub open spec fn readied<W: Weight + ?Sized>(weight: Result<Box<W>, Error>) -> Readied {
    match weight {
        Ok(weight) => Ok(weight.model()),
        Err(error) => Err(error),
    }
}

/// The behaviour of a query: what can come of making it ready to run, its terms,
/// each with whether positions are needed, and how it is written out.
pub struct QueryModel {
    pub outcomes: spec_fn(Scoring, Readied) -> bool,
    pub terms: Seq<(Term, bool)>,
    pub text: Seq<char>,
}

impl QueryModel {
    pub open spec fn allows(self, scoring: Scoring, outcome: Readied) -> bool {
        (self.outcomes)(scoring, outcome)
    }
}

/// A question that documents match or do not match.
pub trait Query {
    /// How the query behaves.
    spec fn model(&self) -> QueryModel;

    /// Makes the query ready to run.
    fn weight(&self, enable_scoring: EnableScoring<'_>) -> (weight: Result<
        Box<dyn Weight>,
        Error,
    >)
        ensures
            self.model().allows(enable_scoring@, readied(weight)),
    ;

    /// Hands each term of the query, in order, to the visitor's list.
    fn query_terms<'a>(&'a self, visited: &mut Vec<(&'a Term, bool)>)
        ensures
            visits(final(visited)@) == visits(old(visited)@) + self.model().terms,
    ;

    /// Writes the query out.
    fn debug_text(&self) -> (text: String)
        ensures
            text@ == self.model().text,
    ;
}

/// The terms in a visitor's list.
pub open spec fn visits(visited: Seq<(&Term, bool)>) -> Seq<(Term, bool)> {
    visited.map_values(|visit: (&Term, bool)| (*visit.0, visit.1))
}

/// Why a document has its score.
#[derive(Debug)]
pub struct Explanation {
    description: String,
    value: Score,
    details: Vec<Explanation>,
}

impl Explanation {
    pub closed spec fn spec_description(&self) -> Seq<char> {
        self.description@
    }

    pub closed spec fn spec_value(&self) -> ScoreTerm {
        self.value@
    }

    pub closed spec fn spec_details(&self) -> Seq<Explanation> {
        self.details@
    }

    /// An explanation without details.
    pub fn new(description: &str, value: Score) -> (explanation: Explanation)
        ensures
            explanation.spec_description() == description@,
            explanation.spec_value() == value@,
            explanation.spec_details() == Seq::<Explanation>::empty(),
    {
        Explanation { description: String::from_str(description), value, details: Vec::new() }
    }

    /// Adds a detail behind the others.
    pub fn add_detail(&mut self, detail: Explanation)
        ensures
            final(self).spec_description() == old(self).spec_description(),
            final(self).spec_value() == old(self).spec_value(),
            final(self).spec_details() == old(self).spec_details().push(detail),
    {
        self.details.push(detail);
    }

    /// The score.
    pub fn value(&self) -> (value: &Score)
        ensures
            value@ == self.spec_value(),
    {
        &self.value
    }

    /// What the score is the score of.
    pub fn description(&self) -> (description: &str)
        ensures
            description@ == self.spec_description(),
    {
        self.description.as_str()
    }

    /// The details.
    pub fn details(&self) -> (details: &Vec<Explanation>)
        ensures
            details@ == self.spec_details(),
    {
        &self.details
    }
}

} // verus!
