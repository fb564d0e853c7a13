use hashcards::cmd::browse::index::deck_groups;
use hashcards::cmd::browse::index::DeckStats;
use hashcards::cmd::browse::entries::deck_entries;
use hashcards::cmd::browse::entries::entry_label;
use hashcards::media::media_content_type;
use hashcards::cmd::drill::server::macros_script;
use hashcards::cmd::browse::entries::entry_schedule;
use hashcards::cmd::browse::entries::DeckEntry;
use hashcards::cmd::browse::state::BrowseState;
use hashcards::cmd::drill::katex::katex_font_content_type;
use hashcards::cmd::drill::server::limit_new_cards;
use hashcards::cmd::drill::server::select_drill_cards;
use hashcards::cmd::serve::session::session_cards;
use hashcards::types::card::Card;
use hashcards::types::card::CardContent;
use hashcards::types::date::Date;
use hashcards::types::date::Timestamp;
use hashcards::types::performance::Performance;
use hashcards::types::performance::ReviewedPerformance;
use std::collections::HashMap;
use std::collections::HashSet;

fn basic(deck: &str, q: &str) -> Card {
    Card::new(deck.to_string(), format!("{deck}.md"), (0, 1), CardContent::new_basic(q, "a"))
}

fn cloze(deck: &str, text: &str, start: usize) -> Card {
    Card::new(deck.to_string(), format!("{deck}.md"), (0, 1), CardContent::new_cloze(text, start, start))
}

fn names(cards: &[Card]) -> Vec<String> {
    cards
        .iter()
        .map(|c| match c.content() {
            CardContent::Basic { question, .. } => question.clone(),
            CardContent::Cloze { text, start, .. } => format!("{text}@{start}"),
        })
        .collect()
}

#[test]
fn test_select_drill_cards_filter_bury_limit() {
    let deck = vec![
        basic("a", "1"),
        cloze("a", "[x] [y]", 1),
        basic("b", "2"),
        cloze("a", "[x] [y]", 5),
        basic("a", "3"),
    ];
    let r = select_drill_cards(deck.clone(), None, Some("a".to_string()));
    assert_eq!(names(&r), vec!["1", "[x] [y]@1", "3"]);
    let r = select_drill_cards(deck.clone(), Some(2), None);
    assert_eq!(names(&r), vec!["1", "[x] [y]@1"]);
    let r = select_drill_cards(deck, Some(10), None);
    assert_eq!(names(&r), vec!["1", "[x] [y]@1", "2", "3"]);
}

#[test]
fn test_limit_new_cards() {
    let deck = vec![basic("a", "1"), basic("a", "2"), basic("a", "3"), basic("a", "4")];
    let r = limit_new_cards(deck, &[true, false, true, true], 1);
    assert_eq!(names(&r), vec!["1", "2"]);
}

#[test]
fn test_session_cards() {
    let cards = vec![basic("a", "1"), basic("b", "2"), cloze("a", "[x] [y]", 1), cloze("a", "[x] [y]", 5)];
    let due: HashSet<u64> = cards.iter().map(|c| c.hash().value).filter(|h| *h != cards[0].hash().value).collect();
    let r = session_cards(cards.clone(), &vec!["a".to_string()], &due, true);
    assert_eq!(names(&r), vec!["[x] [y]@1"]);
    let r = session_cards(cards.clone(), &vec![], &due, false);
    assert_eq!(names(&r), vec!["2", "[x] [y]@1", "[x] [y]@5"]);
}

fn date(y: i32, m: u32, d: u32) -> Date {
    Date::from_ymd(y, m, d).unwrap()
}

fn reviewed(due: Date) -> Performance {
    Performance::Reviewed(ReviewedPerformance {
        last_reviewed_at: Timestamp::new(date(2025, 1, 1), 0, 0, 0).unwrap(),
        stability: 0,
        difficulty: 0,
        interval_raw: 0,
        interval_days: 0,
        due_date: due,
        review_count: 1,
    })
}

fn state(cards: &[Card], perf: Vec<(usize, Performance)>) -> BrowseState {
    let mut performance = HashMap::new();
    for (i, p) in perf {
        performance.insert(cards[i].hash().value, p);
    }
    BrowseState {
        port: 0,
        resource_hostname: "localhost".to_string(),
        directory: "/c".to_string(),
        macros: Vec::new(),
        cards: cards.to_vec(),
        families: HashMap::new(),
        performance,
        reviews: HashMap::new(),
        today: date(2025, 6, 1),
    }
}

#[test]
fn test_schedule_summary() {
    let cards = vec![basic("a", "1"), basic("a", "2"), basic("a", "3")];
    let s = state(&cards, vec![(0, reviewed(date(2025, 7, 1))), (1, reviewed(date(2025, 6, 9)))]);
    assert_eq!(s.schedule_summary(&cards[0..2]), "Due 2025-06-09");
    assert_eq!(s.schedule_summary(&cards), "New");
    assert_eq!(s.schedule_summary(&[]), "New");
    assert!(!s.is_due(cards[0].hash()));
    assert!(s.is_due(cards[2].hash()));
    assert_eq!(s.performance_of(cards[2].hash()), Performance::New);
    assert!(s.reviews_of(cards[0].hash()).is_empty());
    assert_eq!(entry_schedule(&s, &DeckEntry::Basic(&cards[1])), "Due 2025-06-09");
    assert_eq!(entry_schedule(&s, &DeckEntry::ClozeFamily(cards[0].hash(), &cards[0..2])), "Due 2025-06-09");
}

#[test]
fn test_katex_font_content_type() {
    assert_eq!(katex_font_content_type("KaTeX_Main-Regular.woff2"), Some("font/woff2".to_string()));
    assert_eq!(katex_font_content_type("KaTeX_Size4-Regular.woff"), Some("font/woff".to_string()));
    assert_eq!(katex_font_content_type("KaTeX_AMS-Regular.ttf"), Some("font/ttf".to_string()));
    assert_eq!(katex_font_content_type("KaTeX_Main-Regular.otf"), None);
    assert_eq!(katex_font_content_type("Other.woff2"), None);
}

#[test]
fn test_deck_entries_grouped_and_sorted() {
    let a = Card::new("d".to_string(), "d.md".to_string(), (5, 6), CardContent::new_basic("banana", "x"));
    let b = Card::new("d".to_string(), "d.md".to_string(), (1, 2), CardContent::new_basic("Apple", "x"));
    let c1 = Card::new("d".to_string(), "d.md".to_string(), (3, 4), CardContent::new_cloze("cherry pie", 0, 5));
    let c2 = Card::new("d".to_string(), "d.md".to_string(), (3, 4), CardContent::new_cloze("cherry pie", 7, 9));
    let other = Card::new("e".to_string(), "e.md".to_string(), (1, 2), CardContent::new_basic("aardvark", "x"));
    let cards = vec![a.clone(), c2.clone(), b.clone(), other, c1.clone()];
    let mut families = HashMap::new();
    families.insert(c1.family_hash().unwrap().value, vec![c1.clone(), c2.clone()]);
    let mut s = state(&cards, vec![]);
    s.families = families;
    let entries = deck_entries(&s, "d");
    let labels: Vec<&str> = entries.iter().map(|e| entry_label(e)).collect();
    assert_eq!(labels, vec!["Apple", "banana", "cherry pie"]);
    match entries[2] {
        DeckEntry::ClozeFamily(_, siblings) => assert_eq!(siblings.len(), 2),
        _ => panic!("expected a cloze family"),
    }
}

#[test]
fn test_media_content_type() {
    assert_eq!(media_content_type("/c/img/a.PNG"), "image/png");
    assert_eq!(media_content_type("a.jpeg"), "image/jpeg");
    assert_eq!(media_content_type("a.webm"), "video/webm");
    assert_eq!(media_content_type("noext"), "application/octet-stream");
    assert_eq!(media_content_type(".png"), "application/octet-stream");
}

#[test]
fn test_macros_script() {
    let macros = vec![("\\R".to_string(), "\\mathbb{R}".to_string())];
    assert_eq!(
        macros_script(&macros),
        "let MACROS = {};\nMACROS[String.raw`\\R`] = String.raw`\\mathbb{R}`;\n\n"
    );
    assert_eq!(macros_script(&Vec::new()), "let MACROS = {};\n\n");
}

#[test]
fn test_deck_stats_and_groups() {
    let cards = vec![
        basic("beta", "1"),
        basic("Alpha", "2"),
        basic("beta", "3"),
        basic("apple", "4"),
        basic("2go", "5"),
    ];
    let s = state(&cards, vec![(0, reviewed(date(2025, 7, 1))), (1, reviewed(date(2025, 5, 1)))]);
    let stats = s.deck_stats();
    assert_eq!(
        stats,
        vec![
            ("2go".to_string(), DeckStats { total: 1, new: 1, due: 1 }),
            ("Alpha".to_string(), DeckStats { total: 1, new: 0, due: 1 }),
            ("apple".to_string(), DeckStats { total: 1, new: 1, due: 1 }),
            ("beta".to_string(), DeckStats { total: 2, new: 1, due: 1 }),
        ]
    );
    let groups = deck_groups(&stats);
    assert_eq!(
        groups,
        vec![
            ('#', vec![("2go".to_string(), 1)]),
            ('A', vec![("Alpha".to_string(), 1), ("apple".to_string(), 1)]),
            ('B', vec![("beta".to_string(), 1)]),
        ]
    );
}
