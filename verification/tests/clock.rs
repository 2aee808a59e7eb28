use nono_guard::clock::{is_leap_year, iso8601};

#[test]
fn the_epoch_is_the_first_of_january() {
    assert_eq!(iso8601(0), "1970-01-01T00:00:00Z");
}

#[test]
fn known_moments() {
    assert_eq!(iso8601(951_782_400), "2000-02-29T00:00:00Z");
    assert_eq!(iso8601(1_709_251_199), "2024-02-29T23:59:59Z");
    assert_eq!(iso8601(1_709_251_200), "2024-03-01T00:00:00Z");
    assert_eq!(iso8601(1_735_689_599), "2024-12-31T23:59:59Z");
    assert_eq!(iso8601(4_102_444_800), "2100-01-01T00:00:00Z");
    assert_eq!(iso8601(4_107_542_400), "2100-03-01T00:00:00Z");
}

#[test]
fn leap_years() {
    assert!(is_leap_year(2024));
    assert!(is_leap_year(2000));
    assert!(!is_leap_year(1900));
    assert!(!is_leap_year(2023));
    assert!(is_leap_year(0));
    assert!(is_leap_year(-4));
    assert!(!is_leap_year(-1));
}

#[test]
fn years_of_five_digits_are_not_cut() {
    assert_eq!(iso8601(253_402_300_799), "9999-12-31T23:59:59Z");
    assert_eq!(iso8601(253_402_300_800), "10000-01-01T00:00:00Z");
}

#[test]
fn later_moments_have_later_and_distinct_texts() {
    let mut before = iso8601(0);
    let mut secs: u64 = 0;
    while secs < 253_000_000_000 {
        secs += 86_399 * 1777 + 1;
        let now = iso8601(secs);
        assert_eq!(now.len(), 20);
        assert!(before < now, "{} {}", before, now);
        before = now;
    }
}

#[test]
fn each_day_of_a_leap_year_follows_the_one_before() {
    let start: u64 = 1_704_067_200;
    let lengths = [31, 29, 31, 30, 31, 30, 31, 31, 30, 31, 30, 31];
    let mut day: u64 = 0;
    for (m, n) in lengths.iter().enumerate() {
        for d in 1..=*n {
            let expected = format!("2024-{:02}-{:02}T00:00:00Z", m + 1, d);
            assert_eq!(iso8601(start + day * 86_400), expected);
            day += 1;
        }
    }
    assert_eq!(iso8601(start + day * 86_400), "2025-01-01T00:00:00Z");
}
