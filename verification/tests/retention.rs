use hashcards::cmd::drill::post::Review;
use hashcards::cmd::drill::retention::retention_counts;
use hashcards::types::card::Card;
use hashcards::types::card::CardContent;
use hashcards::types::card::Grade;

fn make_card(question: &str) -> Card {
    Card::new(
        "deck".to_string(),
        "deck.md".to_string(),
        (0, 0),
        CardContent::new_basic(question, "answer"),
    )
}

fn make_review(card: Card, grade: Grade) -> Review {
    Review { card, grade }
}

/// The rate the drill pages show: the percentage of first reviews that
/// were not `Forgot`, `0.0` when there is none.
fn retention_rate(reviews: &[Review]) -> f64 {
    let (remembered, total) = retention_counts(reviews);
    if total == 0 {
        0.0
    } else {
        (remembered as f64 / total as f64) * 100.0
    }
}

#[test]
fn test_retention_rate_empty() {
    assert_eq!(retention_rate(&[]), 0.0);
}

#[test]
fn test_retention_rate_all_remembered() {
    let reviews = vec![
        make_review(make_card("a"), Grade::Good),
        make_review(make_card("b"), Grade::Easy),
        make_review(make_card("c"), Grade::Hard),
    ];
    assert_eq!(retention_rate(&reviews), 100.0);
}

#[test]
fn test_retention_rate_all_forgot() {
    let reviews = vec![
        make_review(make_card("a"), Grade::Forgot),
        make_review(make_card("b"), Grade::Forgot),
    ];
    assert_eq!(retention_rate(&reviews), 0.0);
}

#[test]
fn test_retention_rate_mixed() {
    let reviews = vec![
        make_review(make_card("a"), Grade::Good),
        make_review(make_card("b"), Grade::Forgot),
        make_review(make_card("c"), Grade::Easy),
        make_review(make_card("d"), Grade::Hard),
    ];
    assert_eq!(retention_rate(&reviews), 75.0);
}

#[test]
fn test_retention_rate_ignores_re_reviews() {
    let card_a = make_card("a");
    let reviews = vec![
        make_review(card_a.clone(), Grade::Forgot),
        make_review(card_a, Grade::Good),
    ];
    assert_eq!(retention_rate(&reviews), 0.0);
}

#[test]
fn test_retention_rate_ignores_re_reviews_after_hard() {
    let card_a = make_card("a");
    let card_b = make_card("b");
    let reviews = vec![
        make_review(card_a.clone(), Grade::Hard),
        make_review(card_b, Grade::Good),
        make_review(card_a, Grade::Good),
    ];
    assert_eq!(retention_rate(&reviews), 100.0);
}

#[test]
fn test_retention_counts_values() {
    let card_a = make_card("a");
    let reviews = vec![
        make_review(card_a.clone(), Grade::Good),
        make_review(make_card("b"), Grade::Forgot),
        make_review(card_a, Grade::Forgot),
    ];
    assert_eq!(retention_counts(&reviews), (1, 2));
}
