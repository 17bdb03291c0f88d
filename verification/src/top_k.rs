//! The three highest-count records seen so far, ranked descending by count.

use vstd::prelude::*;
use crate::record::{TrafficCount, TrafficError};

verus! {

/// Counts never increase along the sequence.
pub open spec fn sorted_desc(s: Seq<TrafficCount>) -> bool {
    forall|i: int, j: int| 0 <= i < j < s.len() ==> s[i].count >= s[j].count
}

/// The least index whose count is strictly below `c`, or `s.len()` if none is.
pub open spec fn first_smaller(s: Seq<TrafficCount>, c: u32) -> int
    decreases s.len(),
{
    if s.len() == 0 {
        0
    } else if s[0].count < c {
        0
    } else {
        1 + first_smaller(s.drop_first(), c)
    }
}

/// What one arrival does to the ranking: an empty ranking takes the record;
/// otherwise the record is inserted just before the first strictly smaller
/// count — and nowhere at all when no tracked count is smaller — and the
/// ranking is then cut back to three entries.
pub open spec fn top_k_add(s: Seq<TrafficCount>, r: TrafficCount) -> Seq<TrafficCount> {
    if s.len() == 0 {
        seq![r]
    } else {
        let i = first_smaller(s, r.count);
        if i < s.len() {
            let grown = s.insert(i, r);
            if grown.len() > 3 {
                grown.take(3)
            } else {
                grown
            }
        } else {
            s
        }
    }
}

/// The ranking that a whole stream produces, walked one arrival at a time.
pub open spec fn top_of(h: Seq<TrafficCount>) -> Seq<TrafficCount>
    decreases h.len(),
{
    if h.len() == 0 {
        Seq::empty()
    } else {
        top_k_add(top_of(h.drop_last()), h.last())
    }
}

proof fn lemma_first_smaller_bounds(s: Seq<TrafficCount>, c: u32)
    ensures
        0 <= first_smaller(s, c) <= s.len(),
    decreases s.len(),
{
    if s.len() > 0 && s[0].count >= c {
        lemma_first_smaller_bounds(s.drop_first(), c);
    }
}

/// `first_smaller` is pinned by what holds on each side of an index.
proof fn lemma_first_smaller_is(s: Seq<TrafficCount>, c: u32, i: int)
    requires
        0 <= i <= s.len(),
        forall|j: int| 0 <= j < i ==> s[j].count >= c,
        i < s.len() ==> s[i].count < c,
    ensures
        first_smaller(s, c) == i,
    decreases s.len(),
{
    if i == 0 {
        if s.len() > 0 && s[0].count >= c {
            lemma_first_smaller_bounds(s, c);
        }
    } else {
        assert(s[0].count >= c);
        let t = s.drop_first();
        assert forall|j: int| 0 <= j < i - 1 implies t[j].count >= c by {
            assert(t[j] == s[j + 1]);
        }
        assert(i - 1 < t.len() ==> t[i - 1] == s[i]);
        lemma_first_smaller_is(t, c, i - 1);
    }
}

/// The three highest-count records seen so far, best first. Ties are broken
/// by arrival: a record is never placed above an equal count that is already
/// tracked, and never enters at all when no tracked count is strictly
/// smaller — even while fewer than three records are tracked.
pub struct TopKTracker {
    records: Vec<TrafficCount>,
    history: Ghost<Seq<TrafficCount>>,
}

impl TopKTracker {
    /// The tracked records, highest count first.
    pub closed spec fn records(&self) -> Seq<TrafficCount> {
        self.records@
    }

    /// Every record offered so far, in arrival order.
    pub closed spec fn history(&self) -> Seq<TrafficCount> {
        self.history@
    }

    /// How many records have been offered to the tracker so far.
    pub open spec fn seen(&self) -> nat {
        self.history().len()
    }

    /// At most three records, never more than were offered, counts
    /// descending — and nothing invented: every tracked record arrived.
    pub open spec fn wf(&self) -> bool {
        &&& self.records().len() <= 3
        &&& self.records().len() <= self.seen()
        &&& sorted_desc(self.records())
        &&& forall|i: int|
            0 <= i < self.records().len() ==> self.history().contains(self.records()[i])
    }

    pub fn new() -> (t: Self)
        ensures
            t.wf(),
            t.records() == Seq::<TrafficCount>::empty(),
            t.history() == Seq::<TrafficCount>::empty(),
            t.seen() == 0,
    {
        TopKTracker { records: Vec::new(), history: Ghost(Seq::empty()) }
    }

    /// Fold one record into the ranking.
    pub fn add(&mut self, record: &TrafficCount)
        requires
            old(self).wf(),
        ensures
            final(self).wf(),
            final(self).records() == top_k_add(old(self).records(), *record),
            final(self).history() == old(self).history().push(*record),
            final(self).seen() == old(self).seen() + 1,
    {
        let ghost h = self.history@;
        let ghost h2 = h.push(*record);
        proof {
            self.history = Ghost(h2);
            assert(h2[h2.len() - 1] == *record);
            assert forall|x: TrafficCount| h.contains(x) implies h2.contains(x) by {
                let j = choose|j: int| 0 <= j < h.len() && h[j] == x;
                assert(h2[j] == x);
            }
        }
        if self.records.len() == 0 {
            self.records.push(record.clone());
            assert(self.records() =~= top_k_add(old(self).records(), *record));
            return;
        }
        let ghost s = self.records@;
        let n = self.records.len();
        let mut i: usize = 0;
        while i < n && self.records[i].count >= record.count
            invariant
                0 <= i <= n,
                n == self.records@.len(),
                self.records@ == s,
                forall|j: int| 0 <= j < i ==> s[j].count >= record.count,
            decreases n - i,
        {
            i += 1;
        }
        proof {
            lemma_first_smaller_is(s, record.count, i as int);
        }
        if i < self.records.len() {
            self.records.insert(i, record.clone());
            proof {
                let grown = s.insert(i as int, *record);
                assert(self.records@ == grown);
                assert(sorted_desc(grown)) by {
                    assert forall|p: int, q: int| 0 <= p < q < grown.len() implies grown[p].count
                        >= grown[q].count by {
                        if q < i {
                            assert(grown[p] == s[p] && grown[q] == s[q]);
                        } else if p > i {
                            assert(grown[p] == s[p - 1] && grown[q] == s[q - 1]);
                        } else if p < i && q == i {
                            assert(grown[p] == s[p] && grown[q] == *record);
                        } else if p == i && q > i {
                            assert(grown[p] == *record && grown[q] == s[q - 1]);
                            assert(s[i as int].count < record.count);
                            assert(s[q - 1].count <= s[i as int].count);
                        } else {
                            assert(p < i && q > i);
                            assert(grown[p] == s[p] && grown[q] == s[q - 1]);
                        }
                    }
                }
            }
            if self.records.len() > 3 {
                self.records.pop();
                proof {
                    let grown = s.insert(i as int, *record);
                    assert(self.records@ =~= grown.take(3));
                }
            }
            proof {
                let t = self.records@;
                assert forall|k: int| 0 <= k < t.len() implies h2.contains(t[k]) by {
                    let grown = s.insert(i as int, *record);
                    assert(t[k] == grown[k]);
                    if k < i {
                        assert(grown[k] == s[k]);
                    } else if k == i {
                        assert(grown[k] == *record);
                    } else {
                        assert(grown[k] == s[k - 1]);
                    }
                }
            }
        }
    }

    pub fn len(&self) -> (n: usize)
        ensures
            n == self.records().len(),
    {
        self.records.len()
    }

    /// The record at a rank, best first; `None` past the end.
    pub fn get(&self, i: usize) -> (r: Option<&TrafficCount>)
        ensures
            i < self.records().len() ==> (r matches Some(x) && *x == self.records()[i as int]),
            i >= self.records().len() ==> r is None,
    {
        if i < self.records.len() {
            Some(&self.records[i])
        } else {
            None
        }
    }

    /// What `report` answers: the full three-place ranking, or
    /// `InsufficientData` while fewer than three records are tracked.
    pub open spec fn report_spec(&self) -> Result<
        (TrafficCount, TrafficCount, TrafficCount),
        TrafficError,
    > {
        if self.records().len() >= 3 {
            Ok((self.records()[0], self.records()[1], self.records()[2]))
        } else {
            Err(TrafficError::InsufficientData)
        }
    }

    /// The full three-place ranking, or `InsufficientData` while fewer than
    /// three records are tracked. Reading is read-only and answers a function
    /// of the tracked state alone: asked twice with no arrival in between,
    /// it gives the same answer both times.
    pub fn report(&self) -> (r: Result<(TrafficCount, TrafficCount, TrafficCount), TrafficError>)
        ensures
            r == self.report_spec(),
    {
        if self.records.len() >= 3 {
            Ok((self.records[0].clone(), self.records[1].clone(), self.records[2].clone()))
        } else {
            Err(TrafficError::InsufficientData)
        }
    }
}

/// A ranking whose tracked counts are pairwise distinct is strictly
/// descending, not merely non-increasing.
pub proof fn lemma_top_k_strictly_descending(t: &TopKTracker)
    requires
        t.wf(),
        forall|i: int, j: int|
            0 <= i < j < t.records().len() ==> t.records()[i].count != t.records()[j].count,
    ensures
        forall|i: int, j: int|
            0 <= i < j < t.records().len() ==> t.records()[i].count > t.records()[j].count,
{
}

/// While fewer than three records have been offered, fewer than three are
/// tracked, so the three-place report must fail.
pub proof fn lemma_top_k_insufficient(t: &TopKTracker)
    requires
        t.wf(),
        t.seen() < 3,
    ensures
        t.records().len() < 3,
{
}

} // verus!
