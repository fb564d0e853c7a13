use hashcards::parser::deck_name_of_file;
use hashcards::parser::sort_by_hash;
use hashcards::parser::Parser;
use hashcards::types::card::CardContent;

fn parser() -> Parser {
    Parser::new("deck".to_string(), "/c/deck.md".to_string())
}

#[test]
fn test_parse_basic_and_cloze() {
    let text = "Q: What?\nA: That.\n\nC: The [capital] of [France].\n";
    let cards = parser().parse(text).ok().unwrap();
    assert_eq!(cards.len(), 3);
    match cards[0].content() {
        CardContent::Basic { question, answer } => {
            assert_eq!(question, "What?");
            assert_eq!(answer, "That.\n");
        }
        _ => panic!("expected a basic card"),
    }
    match cards[1].content() {
        CardContent::Cloze { text, start, end } => {
            assert_eq!(text, "The capital of France.");
            assert_eq!((*start, *end), (4, 10));
        }
        _ => panic!("expected a cloze card"),
    }
    assert_eq!(cards[1].deck_name(), "deck");
    assert_eq!(cards[1].file_path(), "/c/deck.md");
}

#[test]
fn test_parse_errors() {
    let err = parser().parse("A: no question\n").err().unwrap();
    assert_eq!(err.message_text(), "Answer without question.");
    let err = parser().parse("Q: unfinished\n").err().unwrap();
    assert_eq!(err.message_text(), "Unfinished question without answer at EOF.");
}

#[test]
fn test_parse_checked_panics_on_empty_leading_deletion() {
    assert!(parser().parse_checked("C: []x\n").is_none());
    assert!(parser().parse_checked("C: a [b]\n").is_some());
}

#[test]
fn test_deck_name_of_file() {
    assert_eq!(deck_name_of_file("/c/Spanish.md"), Some("Spanish".to_string()));
    assert_eq!(deck_name_of_file("/c/notes.tar.md"), Some("notes.tar".to_string()));
    assert_eq!(deck_name_of_file("/c/.md"), None);
    assert_eq!(deck_name_of_file("/c/readme.txt"), None);
    assert_eq!(deck_name_of_file("/c/dir/.."), None);
}

#[test]
fn test_sort_by_hash_orders_cards() {
    let cards = parser().parse("Q: a\nA: 1\nQ: b\nA: 2\nQ: c\nA: 3\n").ok().unwrap();
    let sorted = sort_by_hash(cards);
    for w in sorted.windows(2) {
        assert!(w[0].hash().value <= w[1].hash().value);
    }
    assert_eq!(sorted.len(), 3);
}
