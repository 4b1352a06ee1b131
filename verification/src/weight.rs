//! Queries that are ready to run on a segment.
use vstd::prelude::*;

use crate::error::Error;
use crate::postings::{below, DocId, Listing, Posting};
use crate::score::{one, Score, ScoreTerm};
use crate::scorer::Scorer;

verus! {

/// A segment of an index: its place among the segments, and the number of
/// documents in it.
#[derive(Clone, Copy, Debug)]
pub struct SegmentReader {
    pub segment_ord: u32,
    pub max_doc: DocId,
}

impl SegmentReader {
    /// A bit set for the documents of the segment can be made.
    pub open spec fn valid(self) -> bool {
        self.max_doc <= u32::MAX - 63
    }
}

/// What can come of opening a walk over the matches in a segment.
pub type Outcome = Result<Listing, Error>;

/// What came of opening a walk.
pub open spec fn outcome_of<S: Scorer + ?Sized>(opened: Result<Box<S>, Error>) -> Outcome {
    match opened {
        Ok(walk) => Ok(walk.listing()),
        Err(error) => Err(error),
    }
}

/// The behaviour of a weight: which outcomes it allows on which segment, under
/// which boost. A weight need not behave the same each time it is asked.
pub struct WeightModel {
    pub outcomes: spec_fn(SegmentReader, ScoreTerm, Outcome) -> bool,
}

impl WeightModel {
    pub open spec fn allows(
        self,
        reader: SegmentReader,
        boost: ScoreTerm,
        outcome: Outcome,
    ) -> bool {
        (self.outcomes)(reader, boost, outcome)
    }
}

/// The contents of reported documents and scores.
pub open spec fn reported(hits: Seq<(DocId, Score)>) -> Seq<Posting> {
    hits.map_values(|hit: (DocId, Score)| Posting { doc: hit.0, score: hit.1@ })
}

/// A query that is ready to run on a segment.
pub trait Weight {
    /// What opening a walk can come to.
    spec fn model(&self) -> WeightModel;

    /// Opens a walk over the matches in the segment.
    fn scorer(&self, reader: &SegmentReader, boost: &Score) -> (scorer: Result<
        Box<dyn Scorer>,
        Error,
    >)
        requires
            reader.valid(),
        ensures
            self.model().allows(*reader, boost@, outcome_of(scorer)),
            scorer matches Ok(walk) ==> {
                &&& walk.inv()
                &&& walk.listing().valid()
                &&& below(walk.listing().postings, reader.max_doc as int)
            },
    ;

    /// Counts the matches in the segment.
    fn count(&self, reader: &SegmentReader) -> (count: Result<u32, Error>)
        requires
            reader.valid(),
        ensures
            match count {
                Ok(n) => {
                    &&& n <= reader.max_doc
                    &&& exists|walk: Listing| #[trigger]
                        self.model().allows(*reader, one(), Ok(walk)) && n == walk.postings.len()
                },
                Err(error) => self.model().allows(*reader, one(), Err(error)),
            },
    ;

    /// Reports the matches in the segment, in ascending order, with their scores.
    fn for_each(&self, reader: &SegmentReader) -> (hits: Result<Vec<(DocId, Score)>, Error>)
        requires
            reader.valid(),
        ensures
            match hits {
                Ok(hits) => exists|walk: Listing| #[trigger]
                    self.model().allows(*reader, one(), Ok(walk)) && reported(hits@)
                        == walk.postings,
                Err(error) => self.model().allows(*reader, one(), Err(error)),
            },
    ;
}

} // verus!
