use hashcards::cache::Cache;
use hashcards::cmd::drill::server::AnswerControls;
use hashcards::cmd::serve::state::DrillSession;
use hashcards::types::date::Date;
use hashcards::types::date::Timestamp;
use hashcards::cmd::drill::post::Action;
use hashcards::cmd::drill::post::DrillEffect;
use hashcards::cmd::drill::post::DrillState;
use hashcards::cmd::drill::server::bury_siblings;
use hashcards::types::card::Card;
use hashcards::types::card::CardContent;
use hashcards::types::card::Grade;

fn basic(q: &str) -> Card {
    Card::new(
        "deck".to_string(),
        "deck.md".to_string(),
        (0, 0),
        CardContent::new_basic(q, "answer"),
    )
}

fn cloze(text: &str, start: usize, end: usize) -> Card {
    Card::new(
        "deck".to_string(),
        "deck.md".to_string(),
        (0, 0),
        CardContent::new_cloze(text, start, end),
    )
}

fn questions(cards: &[Card]) -> Vec<String> {
    cards
        .iter()
        .map(|c| match c.content() {
            CardContent::Basic { question, .. } => question.clone(),
            CardContent::Cloze { text, start, .. } => format!("{text}@{start}"),
        })
        .collect()
}

#[test]
fn test_action_grade() {
    assert_eq!(Action::Forgot.grade(), Grade::Forgot);
    assert_eq!(Action::Hard.grade(), Grade::Hard);
    assert_eq!(Action::Good.grade(), Grade::Good);
    assert_eq!(Action::Easy.grade(), Grade::Easy);
}

#[test]
fn test_grade_without_reveal_does_nothing() {
    let mut s = DrillState::new(vec![basic("a")]);
    assert_eq!(s.handle_action(Action::Hard), DrillEffect::Nothing);
    assert_eq!(questions(&s.cards), vec!["a"]);
    assert!(s.reviews.is_empty());
}

#[test]
fn test_good_finishes_last_card() {
    let mut s = DrillState::new(vec![basic("a")]);
    s.handle_action(Action::Reveal);
    assert_eq!(s.handle_action(Action::Good), DrillEffect::ReviewedAndFinished);
    assert!(s.cards.is_empty());
    assert!(s.finished);
    assert_eq!(s.reviews.len(), 1);
}

#[test]
fn test_forgot_moves_card_to_back_and_undo_restores() {
    let mut s = DrillState::new(vec![basic("a"), basic("b")]);
    s.handle_action(Action::Reveal);
    assert_eq!(s.handle_action(Action::Forgot), DrillEffect::Reviewed);
    assert_eq!(questions(&s.cards), vec!["b", "a"]);
    s.handle_action(Action::Undo);
    assert_eq!(questions(&s.cards), vec!["a", "b"]);
    assert!(s.reviews.is_empty());
    assert!(!s.reveal);
}

#[test]
fn test_undo_after_finish_reopens() {
    let mut s = DrillState::new(vec![basic("a")]);
    s.handle_action(Action::Reveal);
    s.handle_action(Action::Easy);
    s.handle_action(Action::Undo);
    assert!(!s.finished);
    assert_eq!(questions(&s.cards), vec!["a"]);
}

#[test]
fn test_undo_initial_and_end() {
    let mut s = DrillState::new(vec![basic("a")]);
    assert_eq!(s.handle_action(Action::Undo), DrillEffect::Nothing);
    assert_eq!(questions(&s.cards), vec!["a"]);
    assert_eq!(s.handle_action(Action::End), DrillEffect::Finished);
    assert!(s.finished);
}

#[test]
fn test_bury_siblings_keeps_first_of_family() {
    let deck = vec![
        cloze("x y", 0, 0),
        basic("q"),
        cloze("x y", 2, 2),
        cloze("z", 0, 0),
    ];
    let kept = bury_siblings(deck);
    assert_eq!(questions(&kept), vec!["x y@0", "q", "z@0"]);
}

#[test]
fn test_drill_session_new() {
    let at = Timestamp::new(Date::from_ymd(2025, 3, 4).unwrap(), 5, 6, 7).unwrap();
    let s = DrillSession::new(
        "/notes".to_string(),
        vec![("\\R".to_string(), "\\mathbb{R}".to_string())],
        vec![basic("a"), basic("b")],
        Cache::new(),
        at,
        AnswerControls::Binary,
    );
    assert_eq!(s.total_cards, 2);
    assert_eq!(s.directory, "/notes");
    assert_eq!(s.macros.len(), 1);
    assert_eq!(s.answer_controls, AnswerControls::Binary);
    assert_eq!(questions(&s.state.cards), vec!["a", "b"]);
    assert!(!s.state.reveal);
    assert!(!s.state.finished);
    assert!(s.state.reviews.is_empty());
}

#[test]
fn test_cards_left_never_exceed_total() {
    let mut s = DrillState::new(vec![basic("a"), basic("b"), basic("c")]);
    let total = s.cards.len();
    let settled = |s: &DrillState| {
        s.reviews
            .iter()
            .filter(|r| r.grade == Grade::Good || r.grade == Grade::Easy)
            .count()
    };
    let steps = [
        Action::Reveal,
        Action::Forgot,
        Action::Reveal,
        Action::Good,
        Action::Undo,
        Action::Undo,
        Action::Reveal,
        Action::Hard,
        Action::Reveal,
        Action::Easy,
    ];
    for a in steps {
        s.handle_action(a);
        assert!(s.cards.len() <= total);
        assert_eq!(s.cards.len() + settled(&s), total);
    }
}
