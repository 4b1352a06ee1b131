//! Sets of document numbers, held in a bit set.
use tantivy_common::BitSet;
use vstd::prelude::*;

use crate::postings::{DocId, Posting, TERMINATED};
use crate::score::Score;

verus! {

/// A set of small numbers, one bit for each.
#[verifier::external_type_specification]
#[verifier::external_body]
pub struct ExBitSet(BitSet);

/// The numbers whose bit is set.
pub uninterp spec fn bits(set: BitSet) -> Set<u32>;

/// The bound that the set was made with: its numbers are below it.
pub uninterp spec fn bound(set: BitSet) -> u32;

/// How many insertions have added a number.
pub uninterp spec fn tally(set: BitSet) -> nat;

/// `BitSet::with_max_value` makes an empty set for numbers below `max_value`. It
/// rounds `max_value` up to a multiple of 64, which must not overflow.
pub assume_specification[ BitSet::with_max_value ](max_value: u32) -> (set: BitSet)
    requires
        max_value <= u32::MAX - 63,
    ensures
        bits(set) == Set::<u32>::empty(),
        bound(set) == max_value,
        tally(set) == 0,
;

/// `BitSet::insert` sets the bit of `el`, leaves the other bits as they are, and
/// counts `el` if its bit was not set before. Past the bound it may index out of
/// range.
pub assume_specification[ BitSet::insert ](set: &mut BitSet, el: u32)
    requires
        el < bound(*old(set)),
    ensures
        bits(*final(set)) == bits(*old(set)).insert(el),
        bound(*final(set)) == bound(*old(set)),
        tally(*final(set)) == if bits(*old(set)).contains(el) {
            tally(*old(set))
        } else {
            tally(*old(set)) + 1
        },
;

/// `BitSet::contains` tells whether the bit of `el` is set. Past the bound it may
/// index out of range.
pub assume_specification[ BitSet::contains ](set: &BitSet, el: u32) -> (found: bool)
    requires
        el < bound(*set),
    ensures
        found == bits(*set).contains(el),
;

/// `BitSet::max_value` returns the bound that the set was made with.
pub assume_specification[ BitSet::max_value ](set: &BitSet) -> (max_value: u32)
    ensures
        max_value == bound(*set),
;

/// `BitSet::len` returns the count that insertions keep, where it fits. (Clearing
/// a set does not reset that count, so it is a name of its own.)
pub assume_specification[ BitSet::len ](set: &BitSet) -> (len: usize)
    ensures
        tally(*set) <= usize::MAX ==> len == tally(*set),
;

/// The numbers below `limit` in the set, in ascending order.
pub open spec fn listed(set: Set<u32>, limit: int) -> Seq<DocId>
    decreases limit,
{
    if limit <= 0 {
        Seq::empty()
    } else if set.contains((limit - 1) as u32) {
        listed(set, limit - 1).push((limit - 1) as u32)
    } else {
        listed(set, limit - 1)
    }
}

/// The set was filled by insertions alone, with proper document numbers.
pub open spec fn holds_documents(set: BitSet) -> bool {
    &&& tally(set) == listed(bits(set), bound(set) as int).len()
    &&& forall|doc: u32|
        doc < bound(set) && #[trigger] bits(set).contains(doc) ==> doc < TERMINATED
}

/// Documents with their scores: a set of documents, and the scores in the order of
/// the documents.
pub struct Parents {
    pub docs: BitSet,
    pub scores: Vec<Score>,
}

impl Parents {
    /// The documents, in ascending order.
    pub open spec fn listed(self) -> Seq<DocId> {
        listed(bits(self.docs), bound(self.docs) as int)
    }

    /// Each document has a score.
    pub open spec fn valid(self) -> bool {
        &&& holds_documents(self.docs)
        &&& self.scores@.len() == self.listed().len()
    }

    /// The documents with their scores, in ascending order.
    pub open spec fn postings(self) -> Seq<Posting> {
        Seq::new(
            self.listed().len(),
            |i: int| Posting { doc: self.listed()[i], score: self.scores@[i]@ },
        )
    }
}

/// A list is not longer than its limit.
pub proof fn lemma_listed_len(set: Set<u32>, limit: int)
    requires
        0 <= limit,
    ensures
        listed(set, limit).len() <= limit,
    decreases limit,
{
    if limit > 0 {
        lemma_listed_len(set, limit - 1);
    }
}

/// What is listed is in the set, below the limit, and in ascending order.
pub proof fn lemma_listed(set: Set<u32>, limit: int)
    requires
        limit <= u32::MAX + 1,
    ensures
        forall|i: int|
            0 <= i < listed(set, limit).len() ==> set.contains(#[trigger] listed(set, limit)[i])
                && listed(set, limit)[i] < limit,
        forall|i: int, j: int|
            0 <= i < j < listed(set, limit).len() ==> (#[trigger] listed(set, limit)[i]) < (
            #[trigger] listed(set, limit)[j]),
    decreases limit,
{
    if limit > 0 {
        lemma_listed(set, limit - 1);
        let shorter = listed(set, limit - 1);
        let list = listed(set, limit);
        assert forall|i: int| 0 <= i < list.len() implies set.contains(#[trigger] list[i])
            && list[i] < limit by {
            if i < shorter.len() {
                assert(list[i] == shorter[i]);
            }
        }
        assert forall|i: int, j: int| 0 <= i < j < list.len() implies (#[trigger] list[i]) < (
        #[trigger] list[j]) by {
            assert(list[i] == shorter[i]);
            if j < shorter.len() {
                assert(list[j] == shorter[j]);
            }
        }
    }
}

/// A shorter list is the beginning of a longer one, and what the longer one adds
/// is not below the limit of the shorter one.
pub proof fn lemma_listed_prefix(set: Set<u32>, low: int, high: int)
    requires
        low <= high <= u32::MAX + 1,
    ensures
        listed(set, low).len() <= listed(set, high).len(),
        listed(set, high).take(listed(set, low).len() as int) == listed(set, low),
        forall|i: int|
            listed(set, low).len() <= i < listed(set, high).len() ==> (#[trigger] listed(
                set,
                high,
            )[i]) >= low,
    decreases high - low,
{
    if low < high {
        lemma_listed_prefix(set, low, high - 1);
        if high > 0 && set.contains((high - 1) as u32) {
            assert(listed(set, high).take(listed(set, low).len() as int) =~= listed(
                set,
                high - 1,
            ).take(listed(set, low).len() as int));
        }
    } else {
        assert(listed(set, high).take(listed(set, low).len() as int) =~= listed(set, low));
    }
}

/// Numbers that the set lacks leave no trace in the list.
pub proof fn lemma_listed_gap(set: Set<u32>, low: int, high: int)
    requires
        0 <= low <= high <= u32::MAX + 1,
        forall|x: u32| low <= x < high ==> !(#[trigger] set.contains(x)),
    ensures
        listed(set, high) == listed(set, low),
    decreases high - low,
{
    if low < high {
        assert(!set.contains((high - 1) as u32));
        lemma_listed_gap(set, low, high - 1);
    }
}

/// A number of the set stands in the list behind all smaller ones.
pub proof fn lemma_listed_rank(set: Set<u32>, x: u32, limit: int)
    requires
        set.contains(x),
        x < limit <= u32::MAX + 1,
    ensures
        listed(set, x as int).len() < listed(set, limit).len(),
        listed(set, limit)[listed(set, x as int).len() as int] == x,
{
    lemma_listed_prefix(set, x + 1, limit);
    let longer = listed(set, limit);
    let shorter = listed(set, x + 1);
    assert(shorter == listed(set, x as int).push(x));
    assert(longer.take(shorter.len() as int)[shorter.len() - 1] == x);
}

/// The list depends on the numbers below its limit alone.
proof fn lemma_listed_agree(a: Set<u32>, b: Set<u32>, limit: int)
    requires
        limit <= u32::MAX + 1,
        forall|x: u32| x < limit ==> (#[trigger] a.contains(x)) == b.contains(x),
    ensures
        listed(a, limit) == listed(b, limit),
    decreases limit,
{
    if limit > 0 {
        assert(a.contains((limit - 1) as u32) == b.contains((limit - 1) as u32));
        lemma_listed_agree(a, b, limit - 1);
    }
}

/// A number above all others goes to the end of the list.
pub proof fn lemma_listed_insert(set: Set<u32>, x: u32, limit: int)
    requires
        x < limit <= u32::MAX + 1,
        forall|y: u32| #[trigger] set.contains(y) ==> y < x,
    ensures
        listed(set.insert(x), limit) == listed(set, limit).push(x),
{
    let more = set.insert(x);
    lemma_listed_agree(more, set, x as int);
    lemma_listed_gap(more, x + 1, limit);
    lemma_listed_gap(set, x as int, limit);
}

} // verus!
