use traffic_summary::{DailyAggregator, SlidingWindowMinimizer, TopKTracker, TrafficCount};

#[test]
fn test_update_top_3_half_hours() {
    let mut top_three = TopKTracker::new();

    for i in 1u32..10 {
        let current = TrafficCount { timestamp: "".into(), count: i };

        top_three.add(&current);
    }

    assert!(top_three.get(0) == Some(&TrafficCount { timestamp: "".into(), count: 9 }));
    assert!(top_three.get(1) == Some(&TrafficCount { timestamp: "".into(), count: 8 }));
    assert!(top_three.get(2) == Some(&TrafficCount { timestamp: "".into(), count: 7 }));
}

#[test]
fn test_update_top_three_the_same() {
    let mut top_three = TopKTracker::new();

    for _i in 1u32..10 {
        let current = TrafficCount { timestamp: "".into(), count: 10 };

        top_three.add(&current);
    }

    assert!(top_three.get(0) == Some(&TrafficCount { timestamp: "".into(), count: 10 }));
    assert!(top_three.get(1) == None);
    assert!(top_three.get(2) == None);
}

#[test]
fn test_minimum_counts() {
    let mut minimizer = SlidingWindowMinimizer::new();

    for i in 1u32..10 {
        let current = TrafficCount { timestamp: "".into(), count: i };

        minimizer.add(&current);
    }

    assert!(minimizer.min_window_len() == 3);
    assert!(minimizer.get_min_window(0) == Some(&TrafficCount { timestamp: "".into(), count: 1 }));
    assert!(minimizer.get_min_window(1) == Some(&TrafficCount { timestamp: "".into(), count: 2 }));
    assert!(minimizer.get_min_window(2) == Some(&TrafficCount { timestamp: "".into(), count: 3 }));

    assert!(minimizer.get_current(0) == Some(&TrafficCount { timestamp: "".into(), count: 7 }));
    assert!(minimizer.get_current(1) == Some(&TrafficCount { timestamp: "".into(), count: 8 }));
    assert!(minimizer.get_current(2) == Some(&TrafficCount { timestamp: "".into(), count: 9 }));
}

#[test]
fn test_daily_totals() {
    let a = TrafficCount { timestamp: "2021-12-01T05:00:00".into(), count: 0 };
    let b = TrafficCount { timestamp: "2021-12-02T05:30:00".into(), count: 1 };
    let c = TrafficCount { timestamp: "2021-12-03T06:00:00".into(), count: 2 };

    let mut daily_totals = DailyAggregator::new();

    daily_totals.add(&a).unwrap();
    daily_totals.add(&b).unwrap();
    daily_totals.add(&c).unwrap();

    let mut count: u32 = 0;
    let mut i: usize = 0;
    while i < daily_totals.len() {
        let day = daily_totals.get(i).unwrap();
        assert!(day.total == count);

        count += 1;
        i += 1;
    }
    assert!(count == 3);
}
