//! Scores, and the rule by which the scores of child documents make up the
//! score of their parent.
use vstd::prelude::*;

verus! {

/// Bit pattern of the single-precision number one.
pub const ONE_BITS: u32 = 0x3f80_0000;

/// Bit pattern of the single-precision number zero.
pub const ZERO_BITS: u32 = 0;

/// How scores should be aggregated from child documents.
#[derive(Clone, Copy, PartialEq, Eq, Structural)]
pub enum ScoreMode {
    /// Use the average of all child scores as the parent score.
    Avg,
    /// Use the maximum child score as the parent score.
    Max,
    /// Sum all child scores for the parent score.
    Total,
    /// Do not score parent docs from child docs. Just rely on parent scoring.
    NoScore,
}

impl Default for ScoreMode {
    fn default() -> (mode: Self)
        ensures
            mode == ScoreMode::Avg,
    {
        ScoreMode::Avg
    }
}

/// A score, as the formula that gives its value.
///
/// The leaves are single-precision numbers, held by their bit pattern. The inner
/// nodes say which operation combines which scores, in which order.
#[derive(Debug)]
pub enum Score {
    /// The number with this bit pattern.
    Literal(u32),
    /// The sum of the scores, divided by how many they are.
    Mean(Vec<Score>),
    /// The largest of the scores.
    Maximum(Vec<Score>),
    /// The sum of the scores, added up from the first to the last.
    Sum(Vec<Score>),
}

/// The mathematical content of a [`Score`].
pub enum ScoreTerm {
    Literal(u32),
    Mean(Seq<ScoreTerm>),
    Maximum(Seq<ScoreTerm>),
    Sum(Seq<ScoreTerm>),
}

/// The contents of several scores, in order.
pub open spec fn terms(scores: Seq<Score>) -> Seq<ScoreTerm>
    decreases scores,
{
    Seq::new(
        scores.len(),
        |i: int|
            if 0 <= i < scores.len() {
                scores[i].term()
            } else {
                arbitrary()
            },
    )
}

impl Score {
    /// The formula that this score stands for.
    pub open spec fn term(self) -> ScoreTerm
        decreases self,
    {
        match self {
            Score::Literal(bits) => ScoreTerm::Literal(bits),
            Score::Mean(scores) => ScoreTerm::Mean(terms(scores@)),
            Score::Maximum(scores) => ScoreTerm::Maximum(terms(scores@)),
            Score::Sum(scores) => ScoreTerm::Sum(terms(scores@)),
        }
    }
}

impl View for Score {
    type V = ScoreTerm;

    open spec fn view(&self) -> ScoreTerm {
        self.term()
    }
}

/// The number one, as a formula.
pub open spec fn one() -> ScoreTerm {
    ScoreTerm::Literal(ONE_BITS)
}

/// The number zero, as a formula.
pub open spec fn zero() -> ScoreTerm {
    ScoreTerm::Literal(ZERO_BITS)
}

/// The score of a parent whose matching children have the given scores: its own
/// score where the mode does not score from children, else one where there are no
/// children, else what the mode makes of their scores.
pub open spec fn aggregate(mode: ScoreMode, own: ScoreTerm, children: Seq<ScoreTerm>) -> ScoreTerm {
    match mode {
        ScoreMode::NoScore => own,
        _ if children.len() == 0 => one(),
        ScoreMode::Avg => ScoreTerm::Mean(children),
        ScoreMode::Max => ScoreTerm::Maximum(children),
        ScoreMode::Total => ScoreTerm::Sum(children),
    }
}

/// Copies each of the scores.
fn copy_all(scores: &Vec<Score>) -> (copies: Vec<Score>)
    ensures
        terms(copies@) == terms(scores@),
    decreases scores@,
{
    let mut copies: Vec<Score> = Vec::new();
    let mut i: usize = 0;
    while i < scores.len()
        invariant
            i <= scores.len(),
            copies@.len() == i,
            forall|j: int| 0 <= j < i ==> (#[trigger] copies@[j])@ == scores@[j]@,
        decreases scores.len() - i,
    {
        let copy = scores[i].clone();
        copies.push(copy);
        i = i + 1;
    }
    assert(terms(copies@) =~= terms(scores@));
    copies
}

impl Clone for Score {
    fn clone(&self) -> (copy: Self)
        ensures
            copy@ == self@,
        decreases self,
    {
        match self {
            Score::Literal(bits) => Score::Literal(*bits),
            Score::Mean(scores) => Score::Mean(copy_all(scores)),
            Score::Maximum(scores) => Score::Maximum(copy_all(scores)),
            Score::Sum(scores) => Score::Sum(copy_all(scores)),
        }
    }
}

impl Score {
    /// The number one.
    pub fn one() -> (score: Score)
        ensures
            score@ == one(),
    {
        Score::Literal(ONE_BITS)
    }

    /// The number zero.
    pub fn zero() -> (score: Score)
        ensures
            score@ == zero(),
    {
        Score::Literal(ZERO_BITS)
    }
}

impl ScoreMode {
    /// The word for the mode.
    pub open spec fn spec_name(self) -> &'static str {
        match self {
            ScoreMode::Avg => "Avg",
            ScoreMode::Max => "Max",
            ScoreMode::Total => "Total",
            ScoreMode::NoScore => "None",
        }
    }

    /// The word for the mode.
    pub fn name(self) -> (name: &'static str)
        ensures
            name@ == self.spec_name()@,
    {
        match self {
            ScoreMode::Avg => "Avg",
            ScoreMode::Max => "Max",
            ScoreMode::Total => "Total",
            ScoreMode::NoScore => "None",
        }
    }

    /// Makes the score of a parent out of its own score and the scores of its
    /// matching children.
    pub fn aggregate(self, own: &Score, child_scores: Vec<Score>) -> (score: Score)
        ensures
            score@ == aggregate(self, own@, terms(child_scores@)),
    {
        let childless = child_scores.len() == 0;
        match self {
            ScoreMode::Avg => if childless {
                Score::one()
            } else {
                Score::Mean(child_scores)
            },
            ScoreMode::Max => if childless {
                Score::one()
            } else {
                Score::Maximum(child_scores)
            },
            ScoreMode::Total => if childless {
                Score::one()
            } else {
                Score::Sum(child_scores)
            },
            ScoreMode::NoScore => own.clone(),
        }
    }
}

} // verus!
