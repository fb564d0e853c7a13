use hashcards::cache::Cache;
use hashcards::cmd::due::due_counts;
use hashcards::cmd::due::due_summary;
use hashcards::cmd::due::parse_date_arg;
use hashcards::db::is_due_on;
use hashcards::types::card::Card;
use hashcards::types::card::CardContent;
use hashcards::types::date::Date;
use hashcards::types::date::Timestamp;
use hashcards::types::performance::Performance;
use hashcards::types::performance::ReviewedPerformance;
use std::collections::HashSet;

fn date(y: i32, m: u32, d: u32) -> Date {
    Date::from_ymd(y, m, d).unwrap()
}

#[test]
fn test_serialize() {
    // A date is serialized as the JSON string of its text.
    let d = date(2024, 1, 2);
    let serialized = serde_json::to_string(&d.to_string()).unwrap();
    assert_eq!(serialized, "\"2024-01-02\"");
}

#[test]
fn test_date_text_pads_and_signs_years() {
    assert_eq!(date(7, 11, 30).to_string(), "0007-11-30");
    assert_eq!(date(12345, 1, 1).to_string(), "+12345-01-01");
    assert_eq!(date(-44, 3, 15).to_string(), "-0044-03-15");
}

#[test]
fn test_from_ymd_checks_the_calendar() {
    assert!(Date::from_ymd(2024, 2, 29).is_some());
    assert!(Date::from_ymd(2023, 2, 29).is_none());
    assert!(Date::from_ymd(1900, 2, 29).is_none());
    assert!(Date::from_ymd(2000, 2, 29).is_some());
    assert!(Date::from_ymd(2024, 4, 31).is_none());
    assert!(Date::from_ymd(2024, 13, 1).is_none());
    assert!(Date::from_ymd(2024, 1, 0).is_none());
}

#[test]
fn test_date_order_and_min() {
    let a = date(2024, 1, 31);
    let b = date(2024, 2, 1);
    assert!(a.le(&b));
    assert!(!b.le(&a));
    assert!(a.le(&a));
    assert_eq!(b.min(a), a);
}

#[test]
fn test_parse_date() {
    assert_eq!(Date::parse("2026-01-15"), Some(date(2026, 1, 15)));
    assert_eq!(Date::parse("2026-02-30"), None);
    assert_eq!(Date::parse("not-a-date"), None);
}

#[test]
fn test_timestamp_text() {
    let t = Timestamp::new(date(2025, 3, 4), 5, 6, 7).unwrap();
    assert_eq!(t.to_string(), "2025-03-04T05:06:07");
    assert_eq!(t.date(), date(2025, 3, 4));
    assert!(Timestamp::new(date(2025, 3, 4), 24, 0, 0).is_none());
}

#[test]
fn test_parse_date_arg() {
    let today = date(2026, 1, 14);
    let tomorrow = date(2026, 1, 15);
    assert_eq!(parse_date_arg("today", today, tomorrow).ok(), Some(today));
    assert_eq!(parse_date_arg("tomorrow", today, tomorrow).ok(), Some(tomorrow));
    assert!(parse_date_arg("2026-01-15", today, tomorrow).is_ok());
    let err = parse_date_arg("not-a-date", today, tomorrow).err().unwrap();
    assert_eq!(
        err.message_text(),
        "invalid date 'not-a-date'. Valid values are `today`, `tomorrow`, or a date in `YYYY-MM-DD` format."
    );
}

fn card(deck: &str, q: &str) -> Card {
    Card::new(deck.to_string(), format!("{deck}.md"), (0, 1), CardContent::new_basic(q, "a"))
}

#[test]
fn test_due_counts_by_deck_name() {
    let cards = vec![card("zoo", "1"), card("apes", "2"), card("zoo", "3"), card("mid", "4")];
    let mut due = HashSet::new();
    for c in &cards[0..3] {
        due.insert(c.hash().value);
    }
    let counts = due_counts(&cards, &due);
    assert_eq!(counts, vec![("apes".to_string(), 1), ("zoo".to_string(), 2)]);
    assert_eq!(due_summary(&cards, &due), "apes: 1\nzoo: 2\nTotal: 3\n");
}

#[test]
fn test_due_summary_nothing_due() {
    let cards = vec![card("a", "1")];
    assert_eq!(due_summary(&cards, &HashSet::new()), "Total: 0\n");
}

#[test]
fn test_is_due_on() {
    let today = date(2025, 6, 1);
    assert!(is_due_on(None, today));
    assert!(is_due_on(Some(date(2025, 6, 1)), today));
    assert!(is_due_on(Some(date(2025, 5, 31)), today));
    assert!(!is_due_on(Some(date(2025, 6, 2)), today));
}

fn reviewed(count: usize) -> Performance {
    Performance::Reviewed(ReviewedPerformance {
        last_reviewed_at: Timestamp::new(date(2025, 1, 1), 0, 0, 0).unwrap(),
        stability: 1,
        difficulty: 2,
        interval_raw: 0,
        interval_days: 1,
        due_date: date(2025, 1, 2),
        review_count: count,
    })
}

#[test]
fn test_cache_insert_get_update() {
    let c = card("d", "q");
    let h = c.hash();
    let mut cache = Cache::new();
    assert!(cache.get(h).is_err());
    assert!(cache.insert(h, Performance::New).is_ok());
    assert!(cache.insert(h, reviewed(3)).is_err());
    assert_eq!(*cache.get(h).ok().unwrap(), Performance::New);
    let at = Timestamp::new(date(2025, 2, 1), 9, 30, 0).unwrap();
    assert!(cache.update(h, at, 10, 20, 30, 4, date(2025, 2, 5)).is_ok());
    assert_eq!(
        *cache.get(h).ok().unwrap(),
        Performance::Reviewed(ReviewedPerformance {
            last_reviewed_at: at,
            stability: 10,
            difficulty: 20,
            interval_raw: 30,
            interval_days: 4,
            due_date: date(2025, 2, 5),
            review_count: 1,
        })
    );
    let other = card("d", "other").hash();
    assert!(cache.update(other, at, 1, 1, 1, 1, date(2025, 2, 5)).is_err());
    assert_eq!(cache.into_inner().len(), 1);
}

#[test]
fn test_timestamp_leap_second() {
    let t = Timestamp::parse("2016-12-31T23:59:60").unwrap();
    assert_eq!(t.hms(), (23, 59, 60));
    assert_eq!(t.to_string(), "2016-12-31T23:59:60");
    let u = Timestamp::parse("2025-03-04T05:06:07").unwrap();
    assert_eq!(u.to_string(), "2025-03-04T05:06:07");
    assert!(Timestamp::parse("2025-03-04T05:06:61").is_none());
    assert!(Timestamp::new(date(2025, 3, 4), 0, 0, 61).is_none());
}
