use hashcards::cmd::drill::tui::card_lines;
use hashcards::cmd::drill::server::AnswerControls;
use hashcards::cmd::drill::tui::controls_text;
use hashcards::cmd::drill::tui::empty_tui_command;
use hashcards::cmd::drill::tui::progress;
use hashcards::cmd::drill::tui::tui_command;
use hashcards::cmd::drill::tui::KeyInput;
use hashcards::cmd::drill::tui::TuiCommand;
use hashcards::types::card::Grade;

#[test]
fn test_tui_hidden_answer_keys() {
    let c = |k| tui_command(false, false, AnswerControls::Full, true, k);
    assert_eq!(c(KeyInput::Char(' ')), TuiCommand::Reveal);
    assert_eq!(c(KeyInput::Enter), TuiCommand::Reveal);
    assert_eq!(c(KeyInput::Char('u')), TuiCommand::Undo);
    assert_eq!(c(KeyInput::Char('q')), TuiCommand::Finish);
    assert_eq!(c(KeyInput::Esc), TuiCommand::Finish);
    assert_eq!(c(KeyInput::Char('1')), TuiCommand::Nothing);
    assert_eq!(c(KeyInput::Other), TuiCommand::Nothing);
}

#[test]
fn test_tui_revealed_full_controls() {
    let c = |k| tui_command(false, true, AnswerControls::Full, true, k);
    assert_eq!(c(KeyInput::Char('1')), TuiCommand::Grade(Grade::Forgot));
    assert_eq!(c(KeyInput::Char('2')), TuiCommand::Grade(Grade::Hard));
    assert_eq!(c(KeyInput::Char('3')), TuiCommand::Grade(Grade::Good));
    assert_eq!(c(KeyInput::Char('4')), TuiCommand::Grade(Grade::Easy));
    assert_eq!(c(KeyInput::Char('u')), TuiCommand::Undo);
    assert_eq!(c(KeyInput::Esc), TuiCommand::Finish);
    assert_eq!(c(KeyInput::Char(' ')), TuiCommand::Nothing);
}

#[test]
fn test_tui_revealed_binary_controls() {
    let c = |k| tui_command(false, true, AnswerControls::Binary, true, k);
    assert_eq!(c(KeyInput::Char('1')), TuiCommand::Grade(Grade::Forgot));
    assert_eq!(c(KeyInput::Char('2')), TuiCommand::Nothing);
    assert_eq!(c(KeyInput::Char('3')), TuiCommand::Grade(Grade::Good));
    assert_eq!(c(KeyInput::Char('4')), TuiCommand::Nothing);
}

#[test]
fn test_tui_finished_and_releases() {
    assert_eq!(
        tui_command(true, false, AnswerControls::Full, true, KeyInput::Char('q')),
        TuiCommand::Quit
    );
    assert_eq!(
        tui_command(true, true, AnswerControls::Full, true, KeyInput::Char('1')),
        TuiCommand::Nothing
    );
    assert_eq!(
        tui_command(false, false, AnswerControls::Full, false, KeyInput::Char(' ')),
        TuiCommand::Nothing
    );
    assert_eq!(empty_tui_command(true, KeyInput::Esc), TuiCommand::Quit);
    assert_eq!(empty_tui_command(true, KeyInput::Char('x')), TuiCommand::Nothing);
    assert_eq!(empty_tui_command(false, KeyInput::Char('q')), TuiCommand::Nothing);
}

#[test]
fn test_tui_progress() {
    assert_eq!(progress(3, 2), (1, 33));
    assert_eq!(progress(4, 0), (4, 100));
    assert_eq!(progress(0, 0), (0, 100));
    assert_eq!(progress(7, 7), (0, 0));
}

#[test]
fn test_tui_controls_text() {
    assert_eq!(
        controls_text(true, false, AnswerControls::Full),
        "[1] Forgot  [2] Hard  [3] Good  [4] Easy  |  [u] Undo  [q] End"
    );
    assert_eq!(
        controls_text(true, true, AnswerControls::Binary),
        "[1] Forgot  [3] Good  |  [u] Undo  [q] End"
    );
    assert_eq!(controls_text(false, true, AnswerControls::Full), "[Space] Reveal  |  [q] End");
    assert_eq!(
        controls_text(false, false, AnswerControls::Binary),
        "[Space] Reveal  |  [u] Undo  [q] End"
    );
}

#[test]
fn test_tui_card_lines() {
    let v = |ls: Vec<hashcards::cmd::drill::tui::ShownLine>| {
        ls.into_iter().map(|l| (l.text, l.answer)).collect::<Vec<_>>()
    };
    let s = |x: &str, a: bool| (x.to_string(), a);
    assert_eq!(v(card_lines("Q1\nQ2\n", "A", false, false, 10)), vec![s("Q1", false), s("Q2", false)]);
    assert_eq!(
        v(card_lines("Q", "A1\r\nA2", false, true, 7)),
        vec![s("Q", false), s("", false), s("───", false), s("", false), s("A1", true), s("A2", true)]
    );
    assert_eq!(v(card_lines("Q", "A", false, true, 2))[2], s("", false));
    assert_eq!(v(card_lines("front [...]", "front text", true, true, 80)), vec![s("front text", true)]);
}
