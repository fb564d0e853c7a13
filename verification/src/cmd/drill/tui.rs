//! The decisions of the terminal drill front end: what a key press does in
//! each state, how far the session has come, and which controls are shown.
//! Drawing and reading the terminal are left to the caller.

use vstd::prelude::*;

use crate::cmd::drill::server::AnswerControls;
use crate::types::card::Grade;
use crate::types::date::Timestamp;
use crate::text::char_vecs;
use crate::text::chars_of;
use crate::text::lines_of;
use crate::text::split_lines;
use crate::text::string_from_chars;

verus! {

/// How a terminal drill session is set up.
pub struct TuiConfig {
    pub directory: Option<String>,
    pub session_started_at: Timestamp,
    pub card_limit: Option<usize>,
    pub new_card_limit: Option<usize>,
    pub deck_filter: Option<String>,
    pub answer_controls: AnswerControls,
    pub bury_siblings: bool,
}

/// A key as the drill front end tells keys apart.
#[derive(Clone, Copy, PartialEq, Eq, Structural, Debug)]
pub enum KeyInput {
    Char(char),
    Enter,
    Esc,
    Other,
}

/// What a key press asks of the session.
#[derive(Clone, Copy, PartialEq, Eq, Structural, Debug)]
pub enum TuiCommand {
    /// Leave the terminal front end.
    Quit,
    /// Show the answer.
    Reveal,
    /// Grade the current card.
    Grade(Grade),
    /// Take back the last review.
    Undo,
    /// End the session and save it.
    Finish,
    /// Ignore the key.
    Nothing,
}

/// Does the key end or leave a screen (`q` or Escape)?
pub open spec fn is_leave_key(key: KeyInput) -> bool {
    key == KeyInput::Char('q') || key == KeyInput::Esc
}

/// What a key does: only presses count; on the completion screen `q` and
/// Escape leave; with the answer shown `1`–`4` grade (`2` and `4` only
/// with the full controls), `u` undoes, `q` and Escape end the session;
/// with the answer hidden Space and Enter reveal it, `u` undoes, `q` and
/// Escape end the session.
pub open spec fn key_command(
    finished: bool,
    reveal: bool,
    controls: AnswerControls,
    pressed: bool,
    key: KeyInput,
) -> TuiCommand {
    if !pressed {
        TuiCommand::Nothing
    } else if finished {
        if is_leave_key(key) {
            TuiCommand::Quit
        } else {
            TuiCommand::Nothing
        }
    } else if reveal {
        if key == KeyInput::Char('1') {
            TuiCommand::Grade(Grade::Forgot)
        } else if key == KeyInput::Char('2') && controls == AnswerControls::Full {
            TuiCommand::Grade(Grade::Hard)
        } else if key == KeyInput::Char('3') {
            TuiCommand::Grade(Grade::Good)
        } else if key == KeyInput::Char('4') && controls == AnswerControls::Full {
            TuiCommand::Grade(Grade::Easy)
        } else if key == KeyInput::Char('u') {
            TuiCommand::Undo
        } else if is_leave_key(key) {
            TuiCommand::Finish
        } else {
            TuiCommand::Nothing
        }
    } else if key == KeyInput::Char(' ') || key == KeyInput::Enter {
        TuiCommand::Reveal
    } else if key == KeyInput::Char('u') {
        TuiCommand::Undo
    } else if is_leave_key(key) {
        TuiCommand::Finish
    } else {
        TuiCommand::Nothing
    }
}

fn leave_key(key: KeyInput) -> (r: bool)
    ensures
        r == is_leave_key(key),
{
    match key {
        KeyInput::Char(c) => c == 'q',
        KeyInput::Esc => true,
        _ => false,
    }
}

/// What a key press does in a drill session (see `key_command`).
pub fn tui_command(
    finished: bool,
    reveal: bool,
    controls: AnswerControls,
    pressed: bool,
    key: KeyInput,
) -> (r: TuiCommand)
    ensures
        r == key_command(finished, reveal, controls, pressed, key),
{
    if !pressed {
        return TuiCommand::Nothing;
    }
    if finished {
        return if leave_key(key) {
            TuiCommand::Quit
        } else {
            TuiCommand::Nothing
        };
    }
    let full = match controls {
        AnswerControls::Full => true,
        AnswerControls::Binary => false,
    };
    if reveal {
        match key {
            KeyInput::Char(c) => {
                if c == '1' {
                    TuiCommand::Grade(Grade::Forgot)
                } else if c == '2' && full {
                    TuiCommand::Grade(Grade::Hard)
                } else if c == '3' {
                    TuiCommand::Grade(Grade::Good)
                } else if c == '4' && full {
                    TuiCommand::Grade(Grade::Easy)
                } else if c == 'u' {
                    TuiCommand::Undo
                } else if c == 'q' {
                    TuiCommand::Finish
                } else {
                    TuiCommand::Nothing
                }
            },
            KeyInput::Esc => TuiCommand::Finish,
            _ => TuiCommand::Nothing,
        }
    } else {
        match key {
            KeyInput::Char(c) => {
                if c == ' ' {
                    TuiCommand::Reveal
                } else if c == 'u' {
                    TuiCommand::Undo
                } else if c == 'q' {
                    TuiCommand::Finish
                } else {
                    TuiCommand::Nothing
                }
            },
            KeyInput::Enter => TuiCommand::Reveal,
            KeyInput::Esc => TuiCommand::Finish,
            KeyInput::Other => TuiCommand::Nothing,
        }
    }
}

/// What a key press does on the screen shown when no card is due: `q` and
/// Escape leave, anything else is ignored.
pub fn empty_tui_command(pressed: bool, key: KeyInput) -> (r: TuiCommand)
    ensures
        r == (if pressed && is_leave_key(key) {
            TuiCommand::Quit
        } else {
            TuiCommand::Nothing
        }),
{
    if pressed && leave_key(key) {
        TuiCommand::Quit
    } else {
        TuiCommand::Nothing
    }
}

/// How far a session of `total` cards has come with `remaining` left: the
/// cards done, and the whole percentage of them (100 for an empty session).
pub fn progress(total: usize, remaining: usize) -> (r: (usize, u16))
    requires
        remaining <= total,
        (total - remaining) * 100 <= usize::MAX,
    ensures
        r.0 == total - remaining,
        r.1 == (if total > 0 {
            (total - remaining) * 100 / (total as int)
        } else {
            100
        }),
        r.1 <= 100,
{
    let done = total - remaining;
    if total > 0 {
        let p = done * 100 / total;
        assert(p <= 100) by (nonlinear_arith)
            requires
                p == (done * 100) as int / total as int,
                done <= total,
                total > 0,
        ;
        (done, p as u16)
    } else {
        (done, 100)
    }
}

/// The key help shown under the card: the grades offered once the answer
/// is shown, else how to reveal it (and to undo, once something was
/// reviewed).
pub fn controls_text(reveal: bool, no_reviews: bool, controls: AnswerControls) -> (r: &'static str)
    ensures
        r@ == (if reveal {
            match controls {
                AnswerControls::Full => "[1] Forgot  [2] Hard  [3] Good  [4] Easy  |  [u] Undo  [q] End"@,
                AnswerControls::Binary => "[1] Forgot  [3] Good  |  [u] Undo  [q] End"@,
            }
        } else if no_reviews {
            "[Space] Reveal  |  [q] End"@
        } else {
            "[Space] Reveal  |  [u] Undo  [q] End"@
        }),
{
    if reveal {
        match controls {
            AnswerControls::Full => "[1] Forgot  [2] Hard  [3] Good  [4] Easy  |  [u] Undo  [q] End",
            AnswerControls::Binary => "[1] Forgot  [3] Good  |  [u] Undo  [q] End",
        }
    } else if no_reviews {
        "[Space] Reveal  |  [q] End"
    } else {
        "[Space] Reveal  |  [u] Undo  [q] End"
    }
}

/// A line of the card pane, and whether it belongs to the answer (shown
/// highlighted).
pub struct ShownLine {
    pub text: String,
    pub answer: bool,
}

/// The lines of `text`, each marked as answer or not.
pub open spec fn marked(text: Seq<char>, answer: bool) -> Seq<(Seq<char>, bool)> {
    lines_of(text).map_values(|l: Seq<char>| (l, answer))
}

/// The rule between question and answer on a terminal `width` columns
/// wide: that width less four, in `─`.
pub open spec fn rule_line(width: u16) -> Seq<char> {
    Seq::new(if width >= 4 { (width - 4) as nat } else { 0 }, |i: int| '─')
}

/// What the card pane shows: the question's lines while the answer is
/// hidden; once it is shown, a basic card's question, a blank line, the
/// rule, a blank line and the answer's lines, and a cloze card's answer
/// lines alone.
pub open spec fn pane_lines(front: Seq<char>, back: Seq<char>, cloze: bool, reveal: bool, width: u16) -> Seq<
    (Seq<char>, bool),
> {
    if !reveal {
        marked(front, false)
    } else if cloze {
        marked(back, true)
    } else {
        marked(front, false) + seq![(Seq::<char>::empty(), false), (rule_line(width), false), (Seq::<char>::empty(), false)]
            + marked(back, true)
    }
}

/// The lines as values.
pub open spec fn shown_views(v: Seq<ShownLine>) -> Seq<(Seq<char>, bool)> {
    v.map_values(|l: ShownLine| (l.text@, l.answer))
}

fn push_marked(out: &mut Vec<ShownLine>, text: &str, answer: bool)
    ensures
        shown_views(final(out)@) == shown_views(old(out)@) + marked(text@, answer),
{
    let ls = split_lines(chars_of(text).as_slice());
    let ghost start = old(out)@;
    let mut i: usize = 0;
    while i < ls.len()
        invariant
            i <= ls@.len(),
            char_vecs(ls@) == lines_of(text@),
            shown_views(out@) == shown_views(start) + marked(text@, answer).take(i as int),
        decreases ls.len() - i,
    {
        let ghost before = out@;
        out.push(ShownLine { text: string_from_chars(ls[i].as_slice()), answer });
        assert(char_vecs(ls@)[i as int] == ls@[i as int]@);
        assert(marked(text@, answer).take(i + 1) =~= marked(text@, answer).take(i as int).push(
            (ls@[i as int]@, answer),
        ));
        assert(shown_views(out@) =~= shown_views(before).push((ls@[i as int]@, answer)));
        i = i + 1;
    }
    assert(marked(text@, answer).take(ls@.len() as int) =~= marked(text@, answer));
}

/// The lines of the card pane (see `pane_lines`).
pub fn card_lines(front: &str, back: &str, cloze: bool, reveal: bool, width: u16) -> (r: Vec<ShownLine>)
    ensures
        shown_views(r@) == pane_lines(front@, back@, cloze, reveal, width),
{
    let mut out: Vec<ShownLine> = Vec::new();
    assert(shown_views(out@) =~= Seq::<(Seq<char>, bool)>::empty());
    if !reveal {
        push_marked(&mut out, front, false);
        assert(shown_views(out@) =~= marked(front@, false));
    } else if cloze {
        push_marked(&mut out, back, true);
        assert(shown_views(out@) =~= marked(back@, true));
    } else {
        push_marked(&mut out, front, false);
        let n: u16 = if width >= 4 {
            width - 4
        } else {
            0
        };
        let mut rule: Vec<char> = Vec::new();
        let mut k: u16 = 0;
        while k < n
            invariant
                k <= n,
                n == (if width >= 4 { (width - 4) as u16 } else { 0u16 }),
                rule@ == Seq::new(k as nat, |i: int| '─'),
            decreases n - k,
        {
            rule.push('─');
            k = k + 1;
            assert(rule@ =~= Seq::new(k as nat, |i: int| '─'));
        }
        assert(rule@ =~= rule_line(width));
        let ghost mid = shown_views(out@);
        out.push(ShownLine { text: String::new(), answer: false });
        out.push(ShownLine { text: string_from_chars(rule.as_slice()), answer: false });
        out.push(ShownLine { text: String::new(), answer: false });
        assert(shown_views(out@) =~= mid + seq![
            (Seq::<char>::empty(), false),
            (rule_line(width), false),
            (Seq::<char>::empty(), false),
        ]);
        push_marked(&mut out, back, true);
    }
    out
}

/// `q` and Escape end an unfinished session whether or not the answer is
/// shown, and leave the completion screen.
pub proof fn law_leave_keys_end(reveal: bool, controls: AnswerControls, key: KeyInput)
    requires
        key == KeyInput::Char('q') || key == KeyInput::Esc,
    ensures
        key_command(false, reveal, controls, true, key) == TuiCommand::Finish,
        key_command(true, reveal, controls, true, key) == TuiCommand::Quit,
{
}

/// With the answer shown, `1` and `3` grade Forgot and Good, `2` and `4`
/// grade Hard and Easy with the full controls only, and `u` undoes; with it
/// hidden, Space and Enter reveal it and `u` undoes. A key that is not a
/// press does nothing.
pub proof fn law_keys_of_the_session(controls: AnswerControls, key: KeyInput, finished: bool, reveal: bool)
    ensures
        key_command(false, true, controls, true, KeyInput::Char('1')) == TuiCommand::Grade(Grade::Forgot),
        key_command(false, true, controls, true, KeyInput::Char('3')) == TuiCommand::Grade(Grade::Good),
        key_command(false, true, AnswerControls::Full, true, KeyInput::Char('2')) == TuiCommand::Grade(Grade::Hard),
        key_command(false, true, AnswerControls::Full, true, KeyInput::Char('4')) == TuiCommand::Grade(Grade::Easy),
        key_command(false, true, AnswerControls::Binary, true, KeyInput::Char('2')) == TuiCommand::Nothing,
        key_command(false, true, AnswerControls::Binary, true, KeyInput::Char('4')) == TuiCommand::Nothing,
        key_command(false, reveal, controls, true, KeyInput::Char('u')) == TuiCommand::Undo,
        key_command(false, false, controls, true, KeyInput::Char(' ')) == TuiCommand::Reveal,
        key_command(false, false, controls, true, KeyInput::Enter) == TuiCommand::Reveal,
        key_command(finished, reveal, controls, false, key) == TuiCommand::Nothing,
{
}

} // verus!
