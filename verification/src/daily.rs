//! Accumulated count totals per calendar date, in ascending date order.

use vstd::prelude::*;
use crate::dates::{date_before, date_lt, date_of, parse_date, DateKey};
use crate::record::{TrafficCount, TrafficError};

verus! {

/// One date's accumulated total.
#[derive(Clone, Copy, PartialEq, Eq, Structural, Debug)]
pub struct DayTotal {
    pub date: DateKey,
    pub total: u32,
}

/// Dates strictly increase along the sequence, so each date has one bucket.
pub open spec fn dates_ascending(s: Seq<DayTotal>) -> bool {
    forall|i: int, j: int| 0 <= i < j < s.len() ==> date_lt(s[i].date, s[j].date)
}

/// The sum of all bucket totals.
pub open spec fn sum_day_totals(s: Seq<DayTotal>) -> int
    decreases s.len(),
{
    if s.len() == 0 {
        0
    } else {
        s[0].total + sum_day_totals(s.drop_first())
    }
}

proof fn lemma_sum_insert(s: Seq<DayTotal>, i: int, e: DayTotal)
    requires
        0 <= i <= s.len(),
    ensures
        sum_day_totals(s.insert(i, e)) == sum_day_totals(s) + e.total,
    decreases s.len(),
{
    let t = s.insert(i, e);
    if i == 0 {
        assert(t[0] == e);
        assert(t.drop_first() =~= s);
    } else {
        assert(t[0] == s[0]);
        assert(t.drop_first() =~= s.drop_first().insert(i - 1, e));
        lemma_sum_insert(s.drop_first(), i - 1, e);
    }
}

proof fn lemma_sum_update(s: Seq<DayTotal>, i: int, e: DayTotal)
    requires
        0 <= i < s.len(),
    ensures
        sum_day_totals(s.update(i, e)) == sum_day_totals(s) - s[i].total + e.total,
    decreases s.len(),
{
    let t = s.update(i, e);
    if i == 0 {
        assert(t[0] == e);
        assert(t.drop_first() =~= s.drop_first());
    } else {
        assert(t[0] == s[0]);
        assert(t.drop_first() =~= s.drop_first().update(i - 1, e));
        lemma_sum_update(s.drop_first(), i - 1, e);
    }
}

/// The least index whose date is not before `d`, or `s.len()` if every date is.
pub open spec fn first_not_before(s: Seq<DayTotal>, d: DateKey) -> int
    decreases s.len(),
{
    if s.len() == 0 {
        0
    } else if date_lt(s[0].date, d) {
        1 + first_not_before(s.drop_first(), d)
    } else {
        0
    }
}

/// What one record does to the buckets: its count joins the bucket of its
/// date, or opens a new bucket at the date's place in the ascending order.
pub open spec fn daily_add(s: Seq<DayTotal>, d: DateKey, c: u32) -> Seq<DayTotal> {
    let i = first_not_before(s, d);
    if i < s.len() && s[i].date == d {
        s.update(i, DayTotal { date: d, total: (s[i].total + c) as u32 })
    } else {
        s.insert(i, DayTotal { date: d, total: c })
    }
}

/// The buckets that a whole stream produces, walked one arrival at a time;
/// a record whose timestamp does not parse leaves them unchanged.
pub open spec fn daily_of(h: Seq<TrafficCount>) -> Seq<DayTotal>
    decreases h.len(),
{
    if h.len() == 0 {
        Seq::empty()
    } else {
        let prev = daily_of(h.drop_last());
        match date_of(h.last().timestamp@) {
            Some(t) => daily_add(
                prev,
                DateKey { year: t.0, month: t.1, day: t.2 },
                h.last().count,
            ),
            None => prev,
        }
    }
}

proof fn lemma_first_not_before_bounds(s: Seq<DayTotal>, d: DateKey)
    ensures
        0 <= first_not_before(s, d) <= s.len(),
    decreases s.len(),
{
    if s.len() > 0 && date_lt(s[0].date, d) {
        lemma_first_not_before_bounds(s.drop_first(), d);
    }
}

/// `first_not_before` is pinned by what holds on each side of an index.
proof fn lemma_first_not_before_is(s: Seq<DayTotal>, d: DateKey, i: int)
    requires
        0 <= i <= s.len(),
        forall|j: int| 0 <= j < i ==> date_lt(s[j].date, d),
        i < s.len() ==> !date_lt(s[i].date, d),
    ensures
        first_not_before(s, d) == i,
    decreases s.len(),
{
    if i == 0 {
        if s.len() > 0 && date_lt(s[0].date, d) {
            lemma_first_not_before_bounds(s, d);
        }
    } else {
        assert(date_lt(s[0].date, d));
        let t = s.drop_first();
        assert forall|j: int| 0 <= j < i - 1 implies date_lt(t[j].date, d) by {
            assert(t[j] == s[j + 1]);
        }
        assert(i - 1 < t.len() ==> t[i - 1] == s[i]);
        lemma_first_not_before_is(t, d, i - 1);
    }
}

/// Count totals per calendar date, held in ascending date order. A record
/// contributes its count to exactly one bucket: the one of its timestamp's
/// date part.
pub struct DailyAggregator {
    days: Vec<DayTotal>,
    added: u32,
}

impl DailyAggregator {
    /// The buckets, in ascending date order.
    pub closed spec fn days(&self) -> Seq<DayTotal> {
        self.days@
    }

    /// The sum of all counts folded in so far.
    pub closed spec fn added(&self) -> u32 {
        self.added
    }

    /// One bucket per date, dates ascending, and every accepted record's
    /// count in exactly one bucket: the buckets sum to everything folded in,
    /// so no bucket outgrows that sum either.
    pub open spec fn wf(&self) -> bool {
        &&& dates_ascending(self.days())
        &&& sum_day_totals(self.days()) == self.added()
        &&& forall|i: int| 0 <= i < self.days().len() ==> self.days()[i].total <= self.added()
    }

    pub fn new() -> (a: Self)
        ensures
            a.wf(),
            a.days() == Seq::<DayTotal>::empty(),
            a.added() == 0,
    {
        DailyAggregator { days: Vec::new(), added: 0 }
    }

    /// Fold one record into its date's bucket. A timestamp that does not
    /// parse is rejected and leaves the buckets as they were.
    pub fn add(&mut self, record: &TrafficCount) -> (r: Result<(), TrafficError>)
        requires
            old(self).wf(),
            old(self).added() + record.count <= u32::MAX,
        ensures
            final(self).wf(),
            match date_of(record.timestamp@) {
                None => {
                    &&& r matches Err(e) && e == TrafficError::ParseError
                    &&& final(self).days() == old(self).days()
                    &&& final(self).added() == old(self).added()
                },
                Some(t) => {
                    let d = DateKey { year: t.0, month: t.1, day: t.2 };
                    &&& r matches Ok(u) && u == ()
                    &&& final(self).days() == daily_add(old(self).days(), d, record.count)
                    &&& final(self).added() == old(self).added() + record.count
                },
            },
    {
        let parsed = parse_date(record.timestamp.as_str());
        match parsed {
            None => Err(TrafficError::ParseError),
            Some(d) => {
                let ghost s = self.days@;
                let n = self.days.len();
                let mut i: usize = 0;
                while i < n && date_before(&self.days[i].date, &d)
                    invariant
                        0 <= i <= n,
                        n == self.days@.len(),
                        self.days@ == s,
                        forall|j: int| 0 <= j < i ==> date_lt(s[j].date, d),
                    decreases n - i,
                {
                    i += 1;
                }
                proof {
                    lemma_first_not_before_is(s, d, i as int);
                }
                if i < self.days.len() && self.days[i].date == d {
                    let grown = self.days[i].total + record.count;
                    self.days[i] = DayTotal { date: d, total: grown };
                    proof {
                        assert(self.days@ =~= daily_add(s, d, record.count));
                        lemma_sum_update(s, i as int, DayTotal { date: d, total: grown });
                    }
                } else {
                    self.days.insert(i, DayTotal { date: d, total: record.count });
                    proof {
                        lemma_sum_insert(s, i as int, DayTotal { date: d, total: record.count });
                        assert(dates_ascending(self.days@)) by {
                            let grown = s.insert(i as int, DayTotal { date: d, total: record.count });
                            assert(self.days@ == grown);
                            assert forall|p: int, q: int|
                                0 <= p < q < grown.len() implies date_lt(
                                grown[p].date,
                                grown[q].date,
                            ) by {
                                if q < i {
                                    assert(grown[p] == s[p] && grown[q] == s[q]);
                                } else if p > i {
                                    assert(grown[p] == s[p - 1] && grown[q] == s[q - 1]);
                                } else if p < i && q == i {
                                    assert(grown[p] == s[p] && grown[q].date == d);
                                } else if p == i && q > i {
                                    assert(grown[p].date == d && grown[q] == s[q - 1]);
                                    assert(!date_lt(s[i as int].date, d) && s[i as int].date != d);
                                    crate::dates::lemma_date_lt_total(s[i as int].date, d);
                                    if q - 1 > i {
                                        assert(date_lt(s[i as int].date, s[q - 1].date));
                                    }
                                } else {
                                    assert(p < i && q > i);
                                    assert(grown[p] == s[p] && grown[q] == s[q - 1]);
                                }
                            }
                        }
                    }
                }
                self.added = self.added + record.count;
                Ok(())
            },
        }
    }

    /// How many dates have a bucket.
    pub fn len(&self) -> (n: usize)
        ensures
            n == self.days().len(),
    {
        self.days.len()
    }

    /// A bucket by position, dates ascending; `None` past the end.
    pub fn get(&self, i: usize) -> (r: Option<DayTotal>)
        ensures
            i < self.days().len() ==> r == Some(self.days()[i as int]),
            i >= self.days().len() ==> r is None,
    {
        if i < self.days.len() {
            Some(self.days[i])
        } else {
            None
        }
    }

    /// All buckets in ascending date order. Reading reports nothing back:
    /// the result is the tracked state itself.
    pub fn totals(&self) -> (r: &Vec<DayTotal>)
        ensures
            r@ == self.days(),
    {
        &self.days
    }
}

} // verus!
