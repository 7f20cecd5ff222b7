use contemporary_z::entry::DirectoryEntry;
use contemporary_z::score::{score, Score};

fn float_score(count: i64, last_access: i64, now: i64) -> f64 {
    let elapsed = if now > last_access { now - last_access } else { 0 };
    10000.0 * count as f64 * (3.75 / ((0.0001 * elapsed as f64 + 1.0) + 0.25))
}

#[test]
fn score_is_the_exact_fraction() {
    let s = score(5, 940, 1000);
    assert_eq!(s.numerator(), 1_875_000_000);
    assert_eq!(s.denominator(), 12_560);
    assert_eq!(s.access_count, 5);
    assert_eq!(s.elapsed, 60);
}

#[test]
fn score_agrees_with_the_formula_in_floating_point() {
    for (count, last, now) in [(5i64, 940i64, 1000i64), (1, 0, 0), (20, 0, 1_000_000), (3, 50, 7)] {
        let s = score(count, last, now);
        let exact = s.numerator() as f64 / s.denominator() as f64;
        let float = float_score(count, last, now);
        assert!((exact - float).abs() <= 1e-6 * float.abs(), "{} vs {}", exact, float);
    }
}

#[test]
fn score_of_a_fresh_visit_is_the_greatest() {
    let s = score(1, 1000, 1000);
    assert_eq!(s.numerator(), 375_000_000);
    assert_eq!(s.denominator(), 12_500);
    assert_eq!(s.numerator() / s.denominator() as i128, 30_000);
}

#[test]
fn a_last_access_in_the_future_counts_as_now() {
    let s = score(4, 2000, 1000);
    assert_eq!(s.elapsed, 0);
    assert_eq!(s.denominator(), 12_500);
    assert!(!s.is_above(&score(4, 1000, 1000)));
    assert!(!score(4, 1000, 1000).is_above(&s));
}

#[test]
fn score_falls_with_age() {
    let now = 1_000_000;
    let mut last = score(3, now, now);
    for age in [1i64, 2, 60, 3600, 86_400, 2_592_000] {
        let next = score(3, now - age, now);
        assert!(last.is_above(&next));
        assert!(!next.is_above(&last));
        last = next;
    }
}

#[test]
fn score_rises_with_count() {
    let now = 1_000_000;
    for count in 1i64..50 {
        let fewer = score(count, now - 777, now);
        let more = score(count + 1, now - 777, now);
        assert!(more.is_above(&fewer));
        assert!(!fewer.is_above(&more));
    }
}

#[test]
fn one_recent_visit_can_outrank_many_stale_ones() {
    let now = 10_000_000;
    let recent = score(1, now, now);
    let stale = score(10, now - 5_000_000, now);
    assert!(recent.is_above(&stale));
}

#[test]
fn comparison_is_exact_at_the_ends_of_the_range() {
    let a = Score { access_count: i64::MAX, elapsed: u64::MAX };
    let b = Score { access_count: i64::MAX, elapsed: u64::MAX - 1 };
    assert!(b.is_above(&a));
    assert!(!a.is_above(&b));
    assert!(!a.is_above(&a));
    let low = Score { access_count: i64::MIN, elapsed: 0 };
    let less_low = Score { access_count: i64::MIN, elapsed: 1 };
    assert!(less_low.is_above(&low));
    assert!(!low.is_above(&less_low));
    assert!(Score { access_count: 0, elapsed: 5 }.is_above(&low));
    assert!(!low.is_above(&Score { access_count: 0, elapsed: 5 }));
}

#[test]
fn equal_fractions_tie() {
    // 1 / 12500 == 2 / 25000
    let a = Score { access_count: 1, elapsed: 0 };
    let b = Score { access_count: 2, elapsed: 12_500 };
    assert!(!a.is_above(&b));
    assert!(!b.is_above(&a));
}

#[test]
fn an_entry_scores_by_its_count_and_last_access() {
    let e = DirectoryEntry::new("/x", "", 940);
    let s = e.score(1000);
    assert_eq!(s.numerator(), 375_000_000);
    assert_eq!(s.denominator(), 12_560);
    assert!(!e.has_alias());
    assert!(DirectoryEntry::new("/x", "a", 0).has_alias());
}
