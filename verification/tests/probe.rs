use completion_kit::cpu_probe::{
    can_record, count, enabled, flush, record, time, CategoryStats, Probe, ReportLine,
    FLUSH_INTERVAL, MAX_DURATION,
};

#[test]
fn probe_switch() {
    assert!(!enabled(None));
    assert!(!enabled(Some("")));
    assert!(!enabled(Some("0")));
    assert!(enabled(Some("1")));
    assert!(enabled(Some("00")));
    assert!(enabled(Some(" ")));
}

fn describe(line: &ReportLine) -> String {
    match line {
        ReportLine::Counted { category, count } => format!("{category} {count}"),
        ReportLine::Timed {
            category,
            count,
            total,
            max,
        } => format!("{category} {count} {total} {max}"),
    }
}

fn stats_of(slot: &Option<Probe>, category: &str) -> CategoryStats {
    slot.as_ref().expect("probe is open").stats(category)
}

#[test]
fn disabled_probe_does_nothing() {
    let mut slot = None;
    assert!(record(&mut slot, false, "draw", Some(5), 0, 5 * FLUSH_INTERVAL).is_none());
    assert!(count(&mut slot, false, "draw", 0, 5 * FLUSH_INTERVAL).is_none());
    assert!(slot.is_none());
    assert!(time(false, "draw", 3).is_none());
}

#[test]
fn report_comes_after_a_second() {
    let mut slot = None;
    let start = 100;
    assert!(count(&mut slot, true, "layout", start, start + 1).is_none());
    assert!(record(&mut slot, true, "draw", Some(30), 0, start + 2).is_none());
    assert!(record(&mut slot, true, "draw", Some(10), 0, start + FLUSH_INTERVAL - 1).is_none());
    assert_eq!(
        stats_of(&slot, "draw"),
        CategoryStats {
            count: 2,
            total: 40,
            max: 30
        }
    );
    assert_eq!(
        stats_of(&slot, "paint"),
        CategoryStats {
            count: 0,
            total: 0,
            max: 0
        }
    );
    let report = record(&mut slot, true, "animate", Some(0), 0, start + FLUSH_INTERVAL)
        .expect("a second has gone by");
    assert_eq!(report.interval, FLUSH_INTERVAL);
    let lines: Vec<String> = report.lines.iter().map(describe).collect();
    assert_eq!(lines, vec!["animate 1", "draw 2 40 30", "layout 1"]);

    // The next interval starts anew.
    assert_eq!(
        stats_of(&slot, "draw"),
        CategoryStats {
            count: 0,
            total: 0,
            max: 0
        }
    );
    assert!(count(&mut slot, true, "draw", 0, start + 2 * FLUSH_INTERVAL - 1).is_none());
    let report = count(&mut slot, true, "draw", 0, start + 2 * FLUSH_INTERVAL + 7)
        .expect("another second has gone by");
    assert_eq!(report.interval, FLUSH_INTERVAL + 7);
    let lines: Vec<String> = report.lines.iter().map(describe).collect();
    assert_eq!(lines, vec!["draw 2"]);
}

#[test]
fn clock_that_goes_back_is_no_time() {
    let mut slot = None;
    assert!(count(&mut slot, true, "draw", 5 * FLUSH_INTERVAL, 0).is_none());
    assert_eq!(stats_of(&slot, "draw").count, 1);
    let timing = time(true, "draw", 50).expect("enabled");
    assert_eq!(timing.elapsed(40), 0);
}

#[test]
fn first_occurrence_can_report() {
    let mut slot = None;
    let report = record(&mut slot, true, "draw", Some(1), 0, FLUSH_INTERVAL).expect("slow start");
    assert_eq!(report.lines.len(), 1);
    assert_eq!(describe(&report.lines[0]), "draw 1 1 1");
}

#[test]
fn timing_is_recorded_when_it_ends() {
    let mut slot = None;
    let timing = time(true, "layout", 1_000).expect("enabled");
    assert_eq!(timing.elapsed(1_250), 250);
    assert!(timing.can_finish(&slot, 1_250));
    assert!(timing.finish(&mut slot, true, 1_250, 1_251, 1_252).is_none());
    assert_eq!(
        stats_of(&slot, "layout"),
        CategoryStats {
            count: 1,
            total: 250,
            max: 250
        }
    );
    let timing = time(true, "layout", 2_000).expect("enabled");
    assert!(timing.finish(&mut slot, false, 2_001, 0, 0).is_none());
    assert_eq!(stats_of(&slot, "layout").count, 1);
}

#[test]
fn order_of_occurrences_does_not_matter() {
    let mut one = None;
    record(&mut one, true, "a", Some(3), 0, 1);
    record(&mut one, true, "b", Some(4), 0, 1);
    record(&mut one, true, "a", Some(5), 0, 1);
    let mut two = None;
    record(&mut two, true, "a", Some(5), 0, 1);
    record(&mut two, true, "a", Some(3), 0, 1);
    record(&mut two, true, "b", Some(4), 0, 1);
    for category in ["a", "b"] {
        assert_eq!(stats_of(&one, category), stats_of(&two, category));
    }
    assert_eq!(
        stats_of(&one, "a"),
        CategoryStats {
            count: 2,
            total: 8,
            max: 5
        }
    );
}

#[test]
fn any_order_gives_the_same_report() {
    let occurrences = [
        ("b", Some(4)),
        ("a", None),
        ("c", Some(0)),
        ("a", Some(9)),
        ("b", Some(7)),
    ];
    let orders = [
        [0, 1, 2, 3, 4],
        [4, 3, 2, 1, 0],
        [2, 0, 4, 1, 3],
        [3, 1, 4, 0, 2],
    ];
    for order in orders {
        let mut slot = None;
        for ix in order {
            let (category, elapsed) = occurrences[ix];
            assert!(record(&mut slot, true, category, elapsed, 0, 1).is_none());
        }
        for category in ["a", "b", "c"] {
            let stats = stats_of(&slot, category);
            assert!(stats.count >= 1);
            assert!(stats.max <= stats.total);
            assert!(stats.total <= u128::from(stats.count) * stats.max);
        }
        let mut probe = slot.expect("probe is open");
        let lines: Vec<String> = flush(&mut probe, 1).lines.iter().map(describe).collect();
        assert_eq!(lines, vec!["a 2 9 9", "b 2 11 7", "c 1"]);
    }
}

#[test]
fn total_time_stays_in_range() {
    let longest = std::time::Duration::MAX.as_nanos();
    assert_eq!(MAX_DURATION, longest);
    let mut slot = None;
    assert!(can_record(&slot, "a", Some(longest)));
    assert!(!can_record(&slot, "a", Some(longest + 1)));
    record(&mut slot, true, "a", Some(longest - 1), 0, 1);
    assert!(can_record(&slot, "a", Some(1)));
    assert!(!can_record(&slot, "a", Some(2)));
    assert!(can_record(&slot, "a", None));
    assert!(can_record(&slot, "b", Some(longest)));
}

#[test]
fn flush_hands_everything_out() {
    let mut slot = None;
    for category in ["m", "z", "a", "mm"] {
        count(&mut slot, true, category, 0, 1);
    }
    let mut probe = slot.expect("probe is open");
    let report = flush(&mut probe, 17);
    assert_eq!(report.interval, 17);
    let lines: Vec<String> = report.lines.iter().map(describe).collect();
    assert_eq!(lines, vec!["a 1", "m 1", "mm 1", "z 1"]);
    assert!(flush(&mut probe, 18).lines.is_empty());
}
