//! The driver state: one pass of the stream through all three accumulators.

use vstd::prelude::*;
use crate::daily::{daily_add, daily_of, DailyAggregator};
use crate::dates::{date_of, DateKey};
use crate::record::{TrafficCount, TrafficError};
use crate::top_k::{lemma_top_k_insufficient, top_k_add, top_of, TopKTracker};
use crate::window::{
    lemma_sum_counts_push, lemma_window_insufficient, sum_counts, window_step,
    SlidingWindowMinimizer,
};

verus! {

/// One run's whole state: the grand total and the three accumulators, each
/// fed every accepted record in arrival order.
pub struct Summary {
    /// The sum of the counts of all records offered so far.
    pub total: u32,
    pub daily: DailyAggregator,
    pub top: TopKTracker,
    pub window: SlidingWindowMinimizer,
    /// The records accepted (offered and parsed) so far, in arrival order.
    pub accepted: Ghost<Seq<TrafficCount>>,
}

impl Summary {
    /// Every accumulator is sound and holds exactly what walking the one
    /// accepted stream produces: the buckets and the ranking are folds of
    /// that stream, the window's history is that stream, the daily buckets
    /// sum to its counts, and no daily bucket outgrows the grand total.
    pub open spec fn wf(&self) -> bool {
        &&& self.daily.wf()
        &&& self.top.wf()
        &&& self.window.wf()
        &&& self.top.history() == self.accepted@
        &&& self.window.history() == self.accepted@
        &&& self.daily.days() == daily_of(self.accepted@)
        &&& self.top.records() == top_of(self.accepted@)
        &&& self.daily.added() == sum_counts(self.accepted@)
        &&& self.daily.added() <= self.total
    }

    pub fn new() -> (s: Self)
        ensures
            s.wf(),
            s.total == 0,
            s.accepted@ == Seq::<TrafficCount>::empty(),
            s.daily.days() == Seq::<crate::daily::DayTotal>::empty(),
            s.top.records() == Seq::<TrafficCount>::empty(),
            s.window.current() == Seq::<TrafficCount>::empty(),
            s.window.min_window() == Seq::<TrafficCount>::empty(),
            s.window.min_sum() == u64::MAX,
    {
        Summary {
            total: 0,
            daily: DailyAggregator::new(),
            top: TopKTracker::new(),
            window: SlidingWindowMinimizer::new(),
            accepted: Ghost(Seq::empty()),
        }
    }

    /// Feed one record to all three accumulators, in the fixed order: the
    /// grand total first, then the daily buckets, then the ranking, then the
    /// window. A record whose timestamp does not parse is rejected after the
    /// grand total and before the accumulators, and the run is expected to
    /// abort on it.
    pub fn add(&mut self, record: &TrafficCount) -> (r: Result<(), TrafficError>)
        requires
            old(self).wf(),
            old(self).total + record.count <= u32::MAX,
        ensures
            final(self).wf(),
            final(self).total == old(self).total + record.count,
            match date_of(record.timestamp@) {
                None => {
                    &&& r matches Err(e) && e == TrafficError::ParseError
                    &&& final(self).accepted@ == old(self).accepted@
                    &&& final(self).daily.days() == old(self).daily.days()
                    &&& final(self).top.records() == old(self).top.records()
                    &&& final(self).window.current() == old(self).window.current()
                    &&& final(self).window.min_window() == old(self).window.min_window()
                    &&& final(self).window.min_sum() == old(self).window.min_sum()
                },
                Some(t) => {
                    let d = DateKey { year: t.0, month: t.1, day: t.2 };
                    &&& r matches Ok(u) && u == ()
                    &&& final(self).accepted@ == old(self).accepted@.push(*record)
                    &&& final(self).daily.days() == daily_add(
                        old(self).daily.days(),
                        d,
                        record.count,
                    )
                    &&& final(self).top.records() == top_k_add(old(self).top.records(), *record)
                    &&& window_step(old(self).window, final(self).window, *record)
                },
            },
    {
        self.total = self.total + record.count;
        match self.daily.add(record) {
            Err(e) => Err(e),
            Ok(_) => {
                self.top.add(record);
                self.window.add(record);
                proof {
                    let h = self.accepted@;
                    let h2 = h.push(*record);
                    lemma_sum_counts_push(h, *record);
                    self.accepted = Ghost(h2);
                    assert(h2.drop_last() =~= h);
                    assert(h2.last() == *record);
                }
                Ok(())
            },
        }
    }
}

/// With fewer than three records accepted, neither a three-place ranking nor
/// a full minimum window exists, so both three-record reports must fail with
/// `InsufficientData` — never return a partial result.
pub proof fn lemma_summary_insufficient(s: &Summary)
    requires
        s.wf(),
        s.accepted@.len() < 3,
    ensures
        s.top.records().len() < 3,
        s.window.min_window().len() != 3,
{
    lemma_top_k_insufficient(&s.top);
    lemma_window_insufficient(&s.window);
}

} // verus!
