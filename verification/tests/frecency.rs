use atuin_z::db::DirEntry;
use atuin_z::frecency::{boosted_score, score, Mode, DAY_NS, HOUR_NS, SCORE_SCALE, WEEK_NS};

const NOW: i64 = 1_000_000_000_000_000_000; // 1e18 ns

fn make_entry(freq: i64, last_visit_ns: i64) -> DirEntry {
    DirEntry {
        cwd: "/test".to_string(),
        freq,
        last_visit_ns,
    }
}

/// A fixed-point score as the number it stands for.
fn value(score: i128) -> f64 {
    score as f64 / SCORE_SCALE as f64
}

// --- Frecency mode: bucket boundaries ---

#[test]
fn frecency_within_hour() {
    let entry = make_entry(10, NOW - HOUR_NS + 1);
    assert_eq!(value(score(&entry, NOW, &Mode::Frecency)), 40.0); // 10 * 4
}

#[test]
fn frecency_at_exactly_one_hour() {
    let entry = make_entry(10, NOW - HOUR_NS);
    // age == HOUR_NS, so falls into the "< DAY_NS" bucket
    assert_eq!(value(score(&entry, NOW, &Mode::Frecency)), 20.0); // 10 * 2
}

#[test]
fn frecency_within_day() {
    let entry = make_entry(10, NOW - DAY_NS + 1);
    assert_eq!(value(score(&entry, NOW, &Mode::Frecency)), 20.0); // 10 * 2
}

#[test]
fn frecency_at_exactly_one_day() {
    let entry = make_entry(10, NOW - DAY_NS);
    // age == DAY_NS, so falls into the "< WEEK_NS" bucket
    assert_eq!(value(score(&entry, NOW, &Mode::Frecency)), 5.0); // 10 * 0.5
}

#[test]
fn frecency_within_week() {
    let entry = make_entry(10, NOW - WEEK_NS + 1);
    assert_eq!(value(score(&entry, NOW, &Mode::Frecency)), 5.0); // 10 * 0.5
}

#[test]
fn frecency_at_exactly_one_week() {
    let entry = make_entry(10, NOW - WEEK_NS);
    // age == WEEK_NS, falls into the "older" bucket
    assert_eq!(value(score(&entry, NOW, &Mode::Frecency)), 2.5); // 10 * 0.25
}

#[test]
fn frecency_older_than_week() {
    let entry = make_entry(10, NOW - WEEK_NS * 52);
    assert_eq!(value(score(&entry, NOW, &Mode::Frecency)), 2.5); // 10 * 0.25
}

// --- Frequency mode ---

#[test]
fn frequency_mode_returns_freq() {
    let entry = make_entry(42, 0);
    assert_eq!(value(score(&entry, NOW, &Mode::Frequency)), 42.0);
}

#[test]
fn frequency_mode_ignores_timestamp() {
    let old = make_entry(10, 0);
    let new = make_entry(10, NOW);
    assert_eq!(
        score(&old, NOW, &Mode::Frequency),
        score(&new, NOW, &Mode::Frequency),
    );
}

// --- Recency mode ---

#[test]
fn recency_mode_returns_timestamp() {
    let ts = NOW - 12345;
    let entry = make_entry(999, ts);
    assert_eq!(value(score(&entry, NOW, &Mode::Recency)), ts as f64);
}

#[test]
fn recency_mode_ignores_freq() {
    let entry_low = make_entry(1, NOW);
    let entry_high = make_entry(1000, NOW);
    assert_eq!(
        score(&entry_low, NOW, &Mode::Recency),
        score(&entry_high, NOW, &Mode::Recency),
    );
}

// --- Exact values ---

#[test]
fn units_of_time_are_nanoseconds() {
    assert_eq!(HOUR_NS, 3600 * 1_000_000_000);
    assert_eq!(DAY_NS, 24 * HOUR_NS);
    assert_eq!(WEEK_NS, 7 * DAY_NS);
}

#[test]
fn scores_are_held_in_eighths() {
    assert_eq!(SCORE_SCALE, 8);
    assert_eq!(score(&make_entry(10, NOW), NOW, &Mode::Frecency), 320);
    assert_eq!(score(&make_entry(10, NOW - HOUR_NS), NOW, &Mode::Frecency), 160);
    assert_eq!(score(&make_entry(10, NOW - DAY_NS), NOW, &Mode::Frecency), 40);
    assert_eq!(score(&make_entry(10, NOW - WEEK_NS), NOW, &Mode::Frecency), 20);
    assert_eq!(score(&make_entry(1, NOW - WEEK_NS), NOW, &Mode::Frecency), 2);
    assert_eq!(score(&make_entry(7, 3), NOW, &Mode::Frequency), 56);
    assert_eq!(score(&make_entry(7, 3), NOW, &Mode::Recency), 24);
}

#[test]
fn frecency_59_minutes_then_one_hour() {
    let minute: i64 = 60 * 1_000_000_000;
    let entry = make_entry(10, NOW - 59 * minute);
    assert_eq!(value(score(&entry, NOW, &Mode::Frecency)), 40.0);
    let entry = make_entry(10, NOW - 60 * minute);
    assert_eq!(value(score(&entry, NOW, &Mode::Frecency)), 20.0);
}

#[test]
fn frecency_last_moment_of_each_bucket() {
    assert_eq!(value(score(&make_entry(10, NOW - (HOUR_NS - 1)), NOW, &Mode::Frecency)), 40.0);
    assert_eq!(value(score(&make_entry(10, NOW - (DAY_NS - 1)), NOW, &Mode::Frecency)), 20.0);
    assert_eq!(value(score(&make_entry(10, NOW - (WEEK_NS - 1)), NOW, &Mode::Frecency)), 5.0);
}

#[test]
fn frecency_visit_in_the_future_counts_as_fresh() {
    let entry = make_entry(10, NOW + HOUR_NS);
    assert_eq!(value(score(&entry, NOW, &Mode::Frecency)), 40.0);
    let entry = make_entry(3, i64::MAX);
    assert_eq!(value(score(&entry, i64::MIN, &Mode::Frecency)), 12.0);
}

#[test]
fn frecency_age_beyond_the_range_of_timestamps() {
    let entry = make_entry(4, i64::MIN);
    assert_eq!(value(score(&entry, i64::MAX, &Mode::Frecency)), 1.0);
}

#[test]
fn frecency_zero_and_negative_counts() {
    assert_eq!(score(&make_entry(0, NOW), NOW, &Mode::Frecency), 0);
    assert_eq!(value(score(&make_entry(-2, NOW), NOW, &Mode::Frecency)), -8.0);
}

#[test]
fn scores_of_extreme_values_do_not_overflow() {
    assert_eq!(
        score(&make_entry(i64::MAX, NOW), NOW, &Mode::Frecency),
        i64::MAX as i128 * 32
    );
    assert_eq!(
        score(&make_entry(i64::MIN, NOW), NOW, &Mode::Frequency),
        i64::MIN as i128 * 8
    );
    assert_eq!(
        boosted_score(&make_entry(1, i64::MIN), NOW, &Mode::Recency),
        i64::MIN as i128 * 12
    );
}

#[test]
fn recency_mode_later_visit_scores_higher() {
    let earlier = make_entry(1000, NOW - 1);
    let later = make_entry(1, NOW);
    assert!(score(&earlier, NOW, &Mode::Recency) < score(&later, NOW, &Mode::Recency));
}

#[test]
fn boosted_score_is_one_and_a_half_times_the_score() {
    let ages = [0, HOUR_NS, DAY_NS, WEEK_NS];
    for age in ages {
        let entry = make_entry(10, NOW - age);
        for mode in [Mode::Frecency, Mode::Frequency, Mode::Recency] {
            let base = score(&entry, NOW, &mode);
            let boosted = boosted_score(&entry, NOW, &mode);
            assert_eq!(2 * boosted, 3 * base);
        }
    }
    assert_eq!(value(boosted_score(&make_entry(10, NOW), NOW, &Mode::Frecency)), 60.0);
    assert_eq!(value(boosted_score(&make_entry(10, NOW), NOW, &Mode::Frequency)), 15.0);
    assert_eq!(boosted_score(&make_entry(1, NOW - WEEK_NS), NOW, &Mode::Frecency), 3);
}
