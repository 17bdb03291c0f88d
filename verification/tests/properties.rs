use traffic_summary::{
    DailyAggregator, DateKey, SlidingWindowMinimizer, Summary, TopKTracker, TrafficCount,
    TrafficError,
};

fn rec(timestamp: &str, count: u32) -> TrafficCount {
    TrafficCount { timestamp: timestamp.into(), count }
}

// Deliberate behavioral parity: a record whose count is not strictly above
// any tracked count is never appended, even while the tracker has spare
// room. Feeding 5 then 3 leaves only the 5 tracked.
#[test]
fn test_top_k_never_appends_without_smaller() {
    let mut top = TopKTracker::new();
    top.add(&rec("", 5));
    top.add(&rec("", 3));

    assert!(top.len() == 1);
    assert!(top.get(0) == Some(&rec("", 5)));
    assert!(top.report() == Err(TrafficError::InsufficientData));
}

// Equal counts can share the ranking: after 3, 5, 4, 4 the tracker holds
// 5, 4, 4 — descending, but not strictly so.
#[test]
fn test_top_k_equal_counts_tracked() {
    let mut top = TopKTracker::new();
    top.add(&rec("a", 3));
    top.add(&rec("b", 5));
    top.add(&rec("c", 4));
    top.add(&rec("d", 4));

    assert!(top.len() == 3);
    assert!(top.get(0) == Some(&rec("b", 5)));
    assert!(top.get(1) == Some(&rec("c", 4)));
    assert!(top.get(2) == Some(&rec("d", 4)));
}

#[test]
fn test_min_sum_value() {
    let mut minimizer = SlidingWindowMinimizer::new();
    for i in 1u32..10 {
        minimizer.add(&rec("", i));
    }

    assert!(minimizer.min_total() == 6);
    assert!(minimizer.min_window_len() == 3);
}

// A tied sum never replaces the recorded minimum: the first-seen window wins.
#[test]
fn test_min_window_first_tie_wins() {
    let mut minimizer = SlidingWindowMinimizer::new();
    minimizer.add(&rec("a", 3));
    minimizer.add(&rec("b", 2));
    minimizer.add(&rec("c", 1));
    minimizer.add(&rec("d", 3));

    assert!(minimizer.min_total() == 6);
    assert!(minimizer.get_min_window(0) == Some(&rec("a", 3)));
    assert!(minimizer.get_min_window(1) == Some(&rec("b", 2)));
    assert!(minimizer.get_min_window(2) == Some(&rec("c", 1)));
    assert!(minimizer.get_current(0) == Some(&rec("b", 2)));
}

#[test]
fn test_min_window_updates_on_strictly_smaller() {
    let mut minimizer = SlidingWindowMinimizer::new();
    minimizer.add(&rec("a", 5));
    minimizer.add(&rec("b", 5));
    minimizer.add(&rec("c", 5));
    assert!(minimizer.min_total() == 15);

    minimizer.add(&rec("d", 1));
    assert!(minimizer.min_total() == 11);
    assert!(minimizer.get_min_window(0) == Some(&rec("b", 5)));
    assert!(minimizer.get_min_window(2) == Some(&rec("d", 1)));
}

// The parser hands the date part back as structured plain values.
#[test]
fn test_daily_date_is_structured() {
    let mut daily = DailyAggregator::new();
    daily.add(&rec("2021-12-01T05:00:00", 7)).unwrap();

    assert!(daily.len() == 1);
    let day = daily.get(0).unwrap();
    assert!(day.date == DateKey { year: 2021, month: 12, day: 1 });
    assert!(day.total == 7);
}

#[test]
fn test_daily_same_day_accumulates() {
    let mut daily = DailyAggregator::new();
    daily.add(&rec("2021-12-01T05:00:00", 7)).unwrap();
    daily.add(&rec("2021-12-01T23:30:00", 5)).unwrap();

    assert!(daily.len() == 1);
    assert!(daily.get(0).unwrap().total == 12);
}

#[test]
fn test_daily_dates_ascend_whatever_the_arrival_order() {
    let mut daily = DailyAggregator::new();
    daily.add(&rec("2021-12-03T06:00:00", 2)).unwrap();
    daily.add(&rec("2021-12-01T05:00:00", 0)).unwrap();
    daily.add(&rec("2021-12-02T05:30:00", 1)).unwrap();

    assert!(daily.len() == 3);
    assert!(daily.get(0).unwrap().date == DateKey { year: 2021, month: 12, day: 1 });
    assert!(daily.get(1).unwrap().date == DateKey { year: 2021, month: 12, day: 2 });
    assert!(daily.get(2).unwrap().date == DateKey { year: 2021, month: 12, day: 3 });
}

#[test]
fn test_unparseable_timestamp_is_rejected() {
    let mut daily = DailyAggregator::new();
    assert!(daily.add(&rec("not a timestamp", 1)) == Err(TrafficError::ParseError));
    assert!(daily.len() == 0);

    let mut summary = Summary::new();
    assert!(summary.add(&rec("2021-13-45T99:99:99", 1)) == Err(TrafficError::ParseError));
    assert!(summary.daily.len() == 0);
    assert!(summary.top.len() == 0);
}

// Reporting is read-only: asking twice, with no arrival in between, gives
// the same answer both times.
#[test]
fn test_reports_read_only() {
    let mut summary = Summary::new();
    summary.add(&rec("2021-12-01T05:00:00", 2)).unwrap();
    summary.add(&rec("2021-12-01T05:30:00", 4)).unwrap();
    summary.add(&rec("2021-12-02T06:00:00", 9)).unwrap();

    assert!(summary.top.report() == summary.top.report());
    assert!(summary.window.report() == summary.window.report());
    assert!(summary.daily.totals() == summary.daily.totals());
    assert!(summary.top.report().is_ok());
    assert!(summary.window.report().is_ok());
}

// Fewer than three records: both three-record reports fail, with no partial
// or padded result.
#[test]
fn test_insufficient_data_reports_fail() {
    let mut summary = Summary::new();
    summary.add(&rec("2021-12-01T05:00:00", 4)).unwrap();
    summary.add(&rec("2021-12-01T05:30:00", 9)).unwrap();

    assert!(summary.top.report() == Err(TrafficError::InsufficientData));
    assert!(summary.window.report() == Err(TrafficError::InsufficientData));
}

#[test]
fn test_empty_stream_reports_fail() {
    let summary = Summary::new();
    assert!(summary.top.report() == Err(TrafficError::InsufficientData));
    assert!(summary.window.report() == Err(TrafficError::InsufficientData));
    assert!(summary.daily.len() == 0);
    assert!(summary.total == 0);
}

#[test]
fn test_summary_full_run() {
    let mut summary = Summary::new();
    for i in 1u32..10 {
        let timestamp = format!("2021-12-0{}T05:00:00", i);
        summary.add(&rec(&timestamp, i)).unwrap();
    }

    assert!(summary.total == 45);

    let (first, second, third) = summary.top.report().unwrap();
    assert!(first.count == 9 && first.timestamp == "2021-12-09T05:00:00");
    assert!(second.count == 8);
    assert!(third.count == 7);

    let (start, end, sum) = summary.window.report().unwrap();
    assert!(start == "2021-12-01T05:00:00");
    assert!(end == "2021-12-03T05:00:00");
    assert!(sum == 6);

    assert!(summary.daily.len() == 9);
    assert!(summary.daily.get(0).unwrap().total == 1);
    assert!(summary.daily.get(8).unwrap().total == 9);
}

// A parse failure aborts the run: the grand total has already taken the bad
// record's count, but no accumulator has.
#[test]
fn test_parse_failure_leaves_accumulators_unchanged() {
    let mut summary = Summary::new();
    summary.add(&rec("2021-12-01T05:00:00", 4)).unwrap();
    summary.add(&rec("2021-12-01T05:30:00", 9)).unwrap();

    assert!(summary.add(&rec("garbage", 5)) == Err(TrafficError::ParseError));
    assert!(summary.total == 18);
    assert!(summary.top.len() == 2);
    assert!(summary.window.current_len() == 2);
    assert!(summary.daily.len() == 1);
}
