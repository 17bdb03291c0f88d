//! The minimum-sum window of three consecutive records.

use vstd::prelude::*;
use crate::record::{TrafficCount, TrafficError};

verus! {

/// The sum of the counts of a run of records.
pub open spec fn sum_counts(s: Seq<TrafficCount>) -> int
    decreases s.len(),
{
    if s.len() == 0 {
        0
    } else {
        s[0].count + sum_counts(s.drop_first())
    }
}

/// One more record adds its count to the sum.
pub proof fn lemma_sum_counts_push(s: Seq<TrafficCount>, r: TrafficCount)
    ensures
        sum_counts(s.push(r)) == sum_counts(s) + r.count,
    decreases s.len(),
{
    let t = s.push(r);
    assert(t.len() == s.len() + 1);
    assert(sum_counts(t) == t[0].count + sum_counts(t.drop_first()));
    if s.len() == 0 {
        assert(t[0] == r);
        assert(t.drop_first() =~= Seq::<TrafficCount>::empty());
        assert(sum_counts(t.drop_first()) == 0);
    } else {
        assert(t[0] == s[0]);
        assert(t.drop_first() =~= s.drop_first().push(r));
        lemma_sum_counts_push(s.drop_first(), r);
        assert(sum_counts(s) == s[0].count + sum_counts(s.drop_first()));
    }
}

/// A window of three is the sum of its three counts.
pub proof fn lemma_sum_three(s: Seq<TrafficCount>)
    requires
        s.len() == 3,
    ensures
        sum_counts(s) == s[0].count + s[1].count + s[2].count,
{
    let t = s.drop_first();
    let u = t.drop_first();
    assert(t[0] == s[1] && t[1] == s[2]);
    assert(u[0] == s[2]);
    assert(u.drop_first().len() == 0);
    assert(sum_counts(u.drop_first()) == 0);
    assert(sum_counts(u) == u[0].count);
    assert(sum_counts(t) == t[0].count + sum_counts(u));
}

/// The live window after one arrival: the record goes on the back, and the
/// oldest record leaves once more than three are held.
pub open spec fn push_window(s: Seq<TrafficCount>, r: TrafficCount) -> Seq<TrafficCount> {
    if s.len() < 3 {
        s.push(r)
    } else {
        s.push(r).drop_first()
    }
}

/// The most recent up-to-three records of a stream, in arrival order.
pub open spec fn recent_window(h: Seq<TrafficCount>) -> Seq<TrafficCount> {
    h.skip(
        if h.len() <= 3 {
            0int
        } else {
            h.len() - 3
        },
    )
}

/// The smallest sum that any full window of the stream has shown, walking
/// the stream one arrival at a time; `u64::MAX` while no window is full.
pub open spec fn least_window_sum(h: Seq<TrafficCount>) -> int
    decreases h.len(),
{
    if h.len() < 3 {
        u64::MAX as int
    } else {
        let w = h.skip(h.len() - 3);
        let rest = least_window_sum(h.drop_last());
        if sum_counts(w) < rest {
            sum_counts(w)
        } else {
            rest
        }
    }
}

/// The earliest full window of the stream that shows the least sum: a later
/// window with merely the same sum never replaces it.
pub open spec fn least_window(h: Seq<TrafficCount>) -> Seq<TrafficCount>
    decreases h.len(),
{
    if h.len() < 3 {
        Seq::empty()
    } else {
        let w = h.skip(h.len() - 3);
        if sum_counts(w) < least_window_sum(h.drop_last()) {
            w
        } else {
            least_window(h.drop_last())
        }
    }
}

/// The walked minimum is a true minimum: no full window of the stream sums
/// below it, and once any window is full, the earliest least window is
/// itself a window of the stream and shows exactly that sum.
pub proof fn lemma_least_window_sound(h: Seq<TrafficCount>)
    ensures
        forall|i: int|
            0 <= i && i + 3 <= h.len() ==> least_window_sum(h) <= sum_counts(
                #[trigger] h.subrange(i, i + 3),
            ),
        h.len() >= 3 ==> exists|i: int|
            0 <= i && i + 3 <= h.len() && #[trigger] h.subrange(i, i + 3) == least_window(h),
        h.len() >= 3 ==> sum_counts(least_window(h)) == least_window_sum(h),
    decreases h.len(),
{
    if h.len() >= 3 {
        let pre = h.drop_last();
        let w = h.skip(h.len() - 3);
        lemma_least_window_sound(pre);
        assert(w =~= h.subrange(h.len() - 3, h.len() as int));
        lemma_sum_three(w);
        assert forall|i: int|
            0 <= i && i + 3 <= pre.len() implies #[trigger] pre.subrange(i, i + 3) == h.subrange(
            i,
            i + 3,
        ) by {
            assert(pre.subrange(i, i + 3) =~= h.subrange(i, i + 3));
        }
        assert forall|i: int|
            0 <= i && i + 3 <= h.len() implies least_window_sum(h) <= sum_counts(
            #[trigger] h.subrange(i, i + 3),
        ) by {
            if i + 3 > pre.len() {
                assert(i == h.len() - 3);
                assert(h.subrange(i, i + 3) == w);
            } else {
                assert(pre.subrange(i, i + 3) == h.subrange(i, i + 3));
                assert(least_window_sum(pre) <= sum_counts(pre.subrange(i, i + 3)));
            }
        }
        if sum_counts(w) < least_window_sum(pre) {
            assert(least_window(h) == w);
            let i0 = h.len() - 3;
            assert(h.subrange(i0, i0 + 3) =~= w);
            assert(0 <= i0 && i0 + 3 <= h.len() && h.subrange(i0, i0 + 3) == least_window(h));
        } else {
            if pre.len() >= 3 {
                let i = choose|i: int|
                    0 <= i && i + 3 <= pre.len() && #[trigger] pre.subrange(i, i + 3)
                        == least_window(pre);
                assert(h.subrange(i, i + 3) == least_window(h));
            } else {
                assert(least_window_sum(pre) == u64::MAX as int);
                assert(false);
            }
        }
    }
}

/// One more arrival slides the most recent window as `push_window` says.
proof fn lemma_recent_window_step(h: Seq<TrafficCount>, r: TrafficCount)
    ensures
        recent_window(h.push(r)) == push_window(recent_window(h), r),
{
    let h2 = h.push(r);
    if h.len() < 3 {
        assert(recent_window(h2) =~= recent_window(h).push(r));
    } else {
        assert(recent_window(h2) =~= recent_window(h).push(r).drop_first());
    }
}

/// How one arrival moves the whole minimizer state: the stream grows by the
/// record, the live window slides, and the recorded minimum changes exactly
/// when the new full window sums strictly below it.
pub open spec fn window_step(
    pre: SlidingWindowMinimizer,
    post: SlidingWindowMinimizer,
    r: TrafficCount,
) -> bool {
    let w = push_window(pre.current(), r);
    &&& post.history() == pre.history().push(r)
    &&& post.current() == w
    &&& if w.len() == 3 && sum_counts(w) < pre.min_sum() {
        post.min_sum() == sum_counts(w) && post.min_window() == w
    } else {
        post.min_sum() == pre.min_sum() && post.min_window() == pre.min_window()
    }
}

/// The most recent up-to-three records in arrival order, together with the
/// smallest sum any full window has shown so far and a snapshot of the window
/// that showed it. Ties never replace the snapshot: the first minimum wins.
pub struct SlidingWindowMinimizer {
    current: Vec<TrafficCount>,
    min_sum: u64,
    min_window: Vec<TrafficCount>,
    history: Ghost<Seq<TrafficCount>>,
}

impl SlidingWindowMinimizer {
    /// Every record offered so far, in arrival order.
    pub closed spec fn history(&self) -> Seq<TrafficCount> {
        self.history@
    }

    /// How many records have been offered so far.
    pub open spec fn seen(&self) -> nat {
        self.history().len()
    }

    /// The live window: the most recent up-to-three records, oldest first.
    pub closed spec fn current(&self) -> Seq<TrafficCount> {
        self.current@
    }

    /// The smallest full-window sum seen so far; `u64::MAX` stands for
    /// "none seen yet" and is above any sum of three counts.
    pub closed spec fn min_sum(&self) -> u64 {
        self.min_sum
    }

    /// The snapshot of the window that produced `min_sum`; empty while no
    /// full window has been seen.
    pub closed spec fn min_window(&self) -> Seq<TrafficCount> {
        self.min_window@
    }

    /// The live window holds the most recent up-to-three records of the
    /// stream, and the recorded minimum is exactly the least sum that any
    /// full window of the stream has shown — with the earliest such window
    /// as its snapshot, or still unset while no window has been full.
    pub open spec fn wf(&self) -> bool {
        &&& self.current() == recent_window(self.history())
        &&& self.min_sum() as int == least_window_sum(self.history())
        &&& self.min_window() == least_window(self.history())
        &&& (self.min_window().len() == 0 && self.min_sum() == u64::MAX && self.seen() < 3) || (
        self.min_window().len() == 3 && self.min_sum() == sum_counts(self.min_window())
            && self.seen() >= 3)
    }

    pub fn new() -> (w: Self)
        ensures
            w.wf(),
            w.history() == Seq::<TrafficCount>::empty(),
            w.current() == Seq::<TrafficCount>::empty(),
            w.min_window() == Seq::<TrafficCount>::empty(),
            w.min_sum() == u64::MAX,
            w.seen() == 0,
    {
        let w = SlidingWindowMinimizer {
            current: Vec::new(),
            min_sum: u64::MAX,
            min_window: Vec::new(),
            history: Ghost(Seq::empty()),
        };
        proof {
            assert(recent_window(Seq::<TrafficCount>::empty()) =~= Seq::<TrafficCount>::empty());
        }
        w
    }

    /// Fold one record into the window. The recorded minimum never rises,
    /// and it changes only when the new full window sums strictly below it.
    pub fn add(&mut self, record: &TrafficCount)
        requires
            old(self).wf(),
        ensures
            final(self).wf(),
            window_step(*old(self), *final(self), *record),
            final(self).history() == old(self).history().push(*record),
            final(self).seen() == old(self).seen() + 1,
            final(self).current() == push_window(old(self).current(), *record),
            final(self).min_sum() <= old(self).min_sum(),
            final(self).min_window() != old(self).min_window() ==> final(self).min_sum() < old(
                self,
            ).min_sum(),
    {
        let ghost h = self.history@;
        let ghost h2 = h.push(*record);
        proof {
            self.history = Ghost(h2);
            lemma_recent_window_step(h, *record);
            assert(h2.drop_last() =~= h);
        }
        self.current.push(record.clone());
        if self.current.len() > 3 {
            self.current.remove(0);
            proof {
                assert(self.current@ =~= push_window(old(self).current(), *record));
            }
        }
        if self.current.len() == 3 {
            let total: u64 = self.current[0].count as u64 + self.current[1].count as u64
                + self.current[2].count as u64;
            proof {
                lemma_sum_three(self.current@);
                assert(total == sum_counts(self.current@));
                assert(self.current@ == h2.skip(h2.len() - 3));
            }
            if total < self.min_sum {
                self.min_sum = total;
                self.min_window = self.current.clone();
                proof {
                    assert(self.min_window@ =~= self.current@);
                }
            }
        }
    }

    /// How many records the live window holds.
    pub fn current_len(&self) -> (n: usize)
        ensures
            n == self.current().len(),
    {
        self.current.len()
    }

    /// A record of the live window by position, oldest first.
    pub fn get_current(&self, i: usize) -> (r: Option<&TrafficCount>)
        ensures
            i < self.current().len() ==> (r matches Some(x) && *x == self.current()[i as int]),
            i >= self.current().len() ==> r is None,
    {
        if i < self.current.len() {
            Some(&self.current[i])
        } else {
            None
        }
    }

    /// How many records the recorded minimum window holds: zero or three.
    pub fn min_window_len(&self) -> (n: usize)
        ensures
            n == self.min_window().len(),
    {
        self.min_window.len()
    }

    /// A record of the recorded minimum window by position, oldest first.
    pub fn get_min_window(&self, i: usize) -> (r: Option<&TrafficCount>)
        ensures
            i < self.min_window().len() ==> (r matches Some(x) && *x == self.min_window()[i as int]),
            i >= self.min_window().len() ==> r is None,
    {
        if i < self.min_window.len() {
            Some(&self.min_window[i])
        } else {
            None
        }
    }

    /// The smallest full-window sum seen so far (`u64::MAX` while none).
    pub fn min_total(&self) -> (r: u64)
        ensures
            r == self.min_sum(),
    {
        self.min_sum
    }

    /// What `report` answers: the recorded minimum window as its start
    /// timestamp, end timestamp and sum, or `InsufficientData` while no full
    /// window has been seen.
    pub open spec fn report_spec(&self) -> Result<(String, String, u64), TrafficError> {
        if self.min_window().len() == 3 {
            Ok((self.min_window()[0].timestamp, self.min_window()[2].timestamp, self.min_sum()))
        } else {
            Err(TrafficError::InsufficientData)
        }
    }

    /// The recorded minimum window as its start timestamp, end timestamp and
    /// sum, or `InsufficientData` while no full window has been seen. Reading
    /// is read-only and answers a function of the state alone: asked twice
    /// with no arrival in between, it gives the same answer both times.
    pub fn report(&self) -> (r: Result<(String, String, u64), TrafficError>)
        ensures
            r == self.report_spec(),
    {
        if self.min_window.len() == 3 {
            Ok((self.min_window[0].timestamp.clone(), self.min_window[2].timestamp.clone(), self.min_sum))
        } else {
            Err(TrafficError::InsufficientData)
        }
    }
}

/// What the recorded minimum means for the whole stream: no full window of
/// the records offered so far sums below it, and once any window has been
/// full, the snapshot is itself a window of the stream with exactly that sum.
pub proof fn lemma_min_is_least(w: &SlidingWindowMinimizer)
    requires
        w.wf(),
    ensures
        forall|i: int|
            0 <= i && i + 3 <= w.history().len() ==> w.min_sum() <= sum_counts(
                #[trigger] w.history().subrange(i, i + 3),
            ),
        w.history().len() >= 3 ==> exists|i: int|
            0 <= i && i + 3 <= w.history().len() && #[trigger] w.history().subrange(i, i + 3)
                == w.min_window(),
        w.history().len() >= 3 ==> sum_counts(w.min_window()) == w.min_sum(),
{
    lemma_least_window_sound(w.history());
}

/// While fewer than three records have been offered, no full window exists,
/// so the minimum-window report must fail.
pub proof fn lemma_window_insufficient(w: &SlidingWindowMinimizer)
    requires
        w.wf(),
        w.seen() < 3,
    ensures
        w.min_window().len() != 3,
{
}

} // verus!
