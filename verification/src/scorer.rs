//! Walks over the matches in a segment.
use vstd::prelude::*;

use crate::postings::{DocId, Listing, Position, TERMINATED};
use crate::score::{zero, Score, ScoreTerm};

verus! {

/// A walk over matching documents in ascending order, with their scores.
pub trait Scorer {
    /// All matches, and how far the walk has come.
    spec fn listing(&self) -> Listing;

    /// What the walk keeps of itself from step to step.
    spec fn inv(&self) -> bool;

    /// The score that the walk reports at a position without a document.
    spec fn idle_score(&self, position: Position) -> ScoreTerm;

    /// The estimate that the walk gives, at a position, of how many documents it
    /// meets.
    spec fn hint(&self, position: Position) -> u32;

    /// Goes to the next document and returns it, or [`TERMINATED`] if there is
    /// none.
    fn advance(&mut self) -> (doc: DocId)
        requires
            old(self).inv(),
            old(self).listing().valid(),
        ensures
            final(self).inv(),
            final(self).listing() == old(self).listing().advanced(),
            forall|position: Position| #[trigger]
                final(self).idle_score(position) == old(self).idle_score(position),
            forall|position: Position| #[trigger]
                final(self).hint(position) == old(self).hint(position),
            doc == final(self).listing().current(),
    ;

    /// Returns the current document, or [`TERMINATED`] if the walk stands on none.
    fn doc(&self) -> (doc: DocId)
        requires
            self.inv(),
            self.listing().valid(),
        ensures
            doc == self.listing().current(),
    ;

    /// Returns the score of the current document, or the idle score if the walk
    /// stands on none.
    fn score(&mut self) -> (score: Score)
        requires
            old(self).inv(),
            old(self).listing().valid(),
        ensures
            final(self).inv(),
            final(self).listing() == old(self).listing(),
            forall|position: Position| #[trigger]
                final(self).idle_score(position) == old(self).idle_score(position),
            forall|position: Position| #[trigger]
                final(self).hint(position) == old(self).hint(position),
            score@ == if old(self).listing().on_document() {
                old(self).listing().postings[old(self).listing().position].score
            } else {
                old(self).idle_score(old(self).listing().position)
            },
    ;

    /// Returns an estimate of how many documents the walk meets.
    fn size_hint(&self) -> (hint: u32)
        requires
            self.inv(),
            self.listing().valid(),
        ensures
            hint == self.hint(self.listing().position),
    ;
}

/// The walk over no documents.
pub struct EmptyScorer;

impl Scorer for EmptyScorer {
    open spec fn listing(&self) -> Listing {
        Listing { postings: Seq::empty(), position: 0 }
    }

    open spec fn inv(&self) -> bool {
        true
    }

    open spec fn idle_score(&self, position: Position) -> ScoreTerm {
        zero()
    }

    open spec fn hint(&self, position: Position) -> u32 {
        0
    }

    fn advance(&mut self) -> (doc: DocId)
        ensures
            doc == TERMINATED,
    {
        TERMINATED
    }

    fn doc(&self) -> (doc: DocId)
        ensures
            doc == TERMINATED,
    {
        TERMINATED
    }

    fn score(&mut self) -> (score: Score)
        ensures
            score@ == zero(),
    {
        Score::zero()
    }

    fn size_hint(&self) -> (hint: u32)
        ensures
            hint == 0,
    {
        0
    }
}

} // verus!
