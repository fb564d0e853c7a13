use vstd::prelude::*;

use crate::error::ErrorReport;
use crate::error::Fallible;
use crate::text::append_chars;
use crate::text::has_prefix;
use crate::text::lines_of;
use crate::text::string_from_chars;
use crate::text::sub_chars;
use crate::text::trim;
use crate::text::trim_chars;
use crate::types::card::Card;
use crate::types::card::CardContent;
use crate::types::card::CardView;
use crate::types::card::ContentView;
use crate::types::card::content_hash;
use crate::types::card::card_views;
use crate::paths::components;

verus! {

// ----------------------------------------------------------------------------
// The deck format, as values.
// ----------------------------------------------------------------------------

/// A line of a deck file, classified.
pub enum LineView {
    /// A line like `Q: <text>`.
    Question(Seq<char>),
    /// A line like `A: <text>`.
    Answer(Seq<char>),
    /// A line like `C: <text>`.
    Cloze(Seq<char>),
    /// Any other line.
    Text(Seq<char>),
}

/// The text after a two-character tag, trimmed.
pub open spec fn tag_text(l: Seq<char>) -> Seq<char> {
    trim(l.skip(2))
}

/// How a line of a deck file reads.
pub open spec fn read_line(l: Seq<char>) -> LineView {
    if has_prefix(l, seq!['Q', ':']) {
        LineView::Question(tag_text(l))
    } else if has_prefix(l, seq!['A', ':']) {
        LineView::Answer(tag_text(l))
    } else if has_prefix(l, seq!['C', ':']) {
        LineView::Cloze(tag_text(l))
    } else {
        LineView::Text(l)
    }
}

/// What the parser is in the middle of; `start` is the line a card began on.
pub enum StateView {
    Initial,
    Question { question: Seq<char>, start: usize },
    Answer { question: Seq<char>, answer: Seq<char>, start: usize },
    Cloze { text: Seq<char>, start: usize },
}

/// The state of the scan of a cloze text for its deletions.
pub struct ScanState {
    /// Where the open deletion began, if one is open.
    pub start: Option<nat>,
    /// The number of characters counted so far.
    pub index: nat,
    /// Inside a Markdown image (`![..]`).
    pub image: bool,
    /// The deletions found, as inclusive character ranges.
    pub spans: Seq<(nat, nat)>,
    /// A deletion closed with no counted character before it.
    pub panicked: bool,
}

/// The scan before any character.
pub open spec fn scan_init() -> ScanState {
    ScanState { start: None, index: 0, image: false, spans: seq![], panicked: false }
}

/// One character of the scan.
pub open spec fn scan_step(st: ScanState, c: char) -> ScanState {
    if st.panicked {
        st
    } else if c == '[' {
        if !st.image {
            ScanState { start: Some(st.index), ..st }
        } else {
            st
        }
    } else if c == ']' {
        if st.image {
            ScanState { image: false, ..st }
        } else {
            match st.start {
                Some(s) => if st.index == 0 {
                    ScanState { panicked: true, ..st }
                } else {
                    ScanState { spans: st.spans.push((s, (st.index - 1) as nat)), start: None, ..st }
                },
                None => st,
            }
        }
    } else if c == '!' {
        ScanState { image: true, ..st }
    } else {
        ScanState { index: st.index + 1, ..st }
    }
}

/// The scan of the text `t`.
pub open spec fn scan(t: Seq<char>) -> ScanState
    decreases t.len(),
{
    if t.len() == 0 {
        scan_init()
    } else {
        scan_step(scan(t.drop_last()), t.last())
    }
}

/// `t` without square brackets.
pub open spec fn remove_brackets(t: Seq<char>) -> Seq<char>
    decreases t.len(),
{
    if t.len() == 0 {
        seq![]
    } else if t.last() == '[' || t.last() == ']' {
        remove_brackets(t.drop_last())
    } else {
        remove_brackets(t.drop_last()).push(t.last())
    }
}

/// The cloze card of one deletion.
pub open spec fn cloze_card(
    deck: Seq<char>,
    path: Seq<char>,
    range: (usize, usize),
    clean: Seq<char>,
    span: (nat, nat),
) -> CardView {
    CardView {
        deck_name: deck,
        file_path: path,
        range,
        content: ContentView::Cloze { text: clean, start: span.0 as usize, end: span.1 as usize },
    }
}

/// The cloze cards of a text: one per deletion, each over the text without
/// brackets. `None` where the scan panics.
pub open spec fn cloze_cards(
    deck: Seq<char>,
    path: Seq<char>,
    range: (usize, usize),
    t: Seq<char>,
) -> Option<Seq<CardView>> {
    let st = scan(t);
    if st.panicked {
        None
    } else {
        Some(st.spans.map_values(|sp: (nat, nat)| cloze_card(deck, path, range, remove_brackets(t), sp)))
    }
}

/// A basic card.
pub open spec fn basic_card(
    deck: Seq<char>,
    path: Seq<char>,
    range: (usize, usize),
    question: Seq<char>,
    answer: Seq<char>,
) -> CardView {
    CardView { deck_name: deck, file_path: path, range, content: ContentView::Basic { question, answer } }
}

/// Where parsing stands after some lines.
pub enum Progress {
    /// Still reading, in the given state, with the cards found so far.
    Reading(StateView, Seq<CardView>),
    /// Parsing failed with the given message.
    Failed(Seq<char>),
    /// The parser would panic.
    Panicked,
}

pub open spec fn msg_answer_without_question() -> Seq<char> {
    "Answer without question."@
}

pub open spec fn msg_question_without_answer() -> Seq<char> {
    "New question without answer."@
}

pub open spec fn msg_cloze_inside_question() -> Seq<char> {
    "Started a cloze card inside a question card question."@
}

pub open spec fn msg_answer_without_new_question() -> Seq<char> {
    "New answer without question."@
}

pub open spec fn msg_answer_in_cloze() -> Seq<char> {
    "Found answer tag while reading a cloze card."@
}

pub open spec fn msg_unfinished_question() -> Seq<char> {
    "Unfinished question without answer at EOF."@
}

/// Append the cloze cards of `t` to `cards`, then continue in state `next`.
pub open spec fn with_cloze(
    deck: Seq<char>,
    path: Seq<char>,
    range: (usize, usize),
    t: Seq<char>,
    cards: Seq<CardView>,
    next: StateView,
) -> Progress {
    match cloze_cards(deck, path, range, t) {
        Some(cs) => Progress::Reading(next, cards + cs),
        None => Progress::Panicked,
    }
}

/// `a`, a newline, and `b`.
pub open spec fn join_line(a: Seq<char>, b: Seq<char>) -> Seq<char> {
    a.push('\n') + b
}

/// One line (number `i`) of the deck format, from state `st` with `cards`.
pub open spec fn step(
    deck: Seq<char>,
    path: Seq<char>,
    st: StateView,
    cards: Seq<CardView>,
    line: LineView,
    i: usize,
) -> Progress {
    match st {
        StateView::Initial => match line {
            LineView::Question(q) => Progress::Reading(StateView::Question { question: q, start: i }, cards),
            LineView::Answer(_) => Progress::Failed(msg_answer_without_question()),
            LineView::Cloze(t) => Progress::Reading(StateView::Cloze { text: t, start: i }, cards),
            LineView::Text(_) => Progress::Reading(StateView::Initial, cards),
        },
        StateView::Question { question, start } => match line {
            LineView::Question(_) => Progress::Failed(msg_question_without_answer()),
            LineView::Answer(a) => Progress::Reading(
                StateView::Answer { question, answer: a, start },
                cards,
            ),
            LineView::Cloze(_) => Progress::Failed(msg_cloze_inside_question()),
            LineView::Text(t) => Progress::Reading(
                StateView::Question { question: join_line(question, t), start },
                cards,
            ),
        },
        StateView::Answer { question, answer, start } => match line {
            LineView::Question(q) => Progress::Reading(
                StateView::Question { question: q, start: i },
                cards.push(basic_card(deck, path, (start, i), question, answer)),
            ),
            LineView::Answer(_) => Progress::Failed(msg_answer_without_new_question()),
            LineView::Cloze(t) => Progress::Reading(
                StateView::Cloze { text: t, start: i },
                cards.push(basic_card(deck, path, (start, i), question, answer)),
            ),
            LineView::Text(t) => Progress::Reading(
                StateView::Answer { question, answer: join_line(answer, t), start },
                cards,
            ),
        },
        StateView::Cloze { text, start } => match line {
            LineView::Question(q) => with_cloze(
                deck,
                path,
                (start, i),
                text,
                cards,
                StateView::Question { question: q, start: i },
            ),
            LineView::Answer(_) => Progress::Failed(msg_answer_in_cloze()),
            LineView::Cloze(t) => with_cloze(
                deck,
                path,
                (start, i),
                text,
                cards,
                StateView::Cloze { text: t, start: i },
            ),
            LineView::Text(t) => Progress::Reading(
                StateView::Cloze { text: join_line(text, t), start },
                cards,
            ),
        },
    }
}

/// Where parsing stands after the given lines.
pub open spec fn run(deck: Seq<char>, path: Seq<char>, lines: Seq<Seq<char>>) -> Progress
    decreases lines.len(),
{
    if lines.len() == 0 {
        Progress::Reading(StateView::Initial, seq![])
    } else {
        match run(deck, path, lines.drop_last()) {
            Progress::Reading(st, cards) => step(
                deck,
                path,
                st,
                cards,
                read_line(lines.last()),
                (lines.len() - 1) as usize,
            ),
            other => other,
        }
    }
}

/// The end of a deck file with `n` lines, from state `st` with `cards`.
pub open spec fn finish(
    deck: Seq<char>,
    path: Seq<char>,
    st: StateView,
    cards: Seq<CardView>,
    n: usize,
) -> Progress {
    match st {
        StateView::Initial => Progress::Reading(StateView::Initial, cards),
        StateView::Question { .. } => Progress::Failed(msg_unfinished_question()),
        StateView::Answer { question, answer, start } => Progress::Reading(
            StateView::Initial,
            cards.push(basic_card(deck, path, (start, n), question, answer)),
        ),
        StateView::Cloze { text, start } => with_cloze(
            deck,
            path,
            (start, n),
            text,
            cards,
            StateView::Initial,
        ),
    }
}

/// The outcome of parsing a deck file's text: `Reading(Initial, cards)` on
/// success.
pub open spec fn parse_text(deck: Seq<char>, path: Seq<char>, text: Seq<char>) -> Progress {
    let lines = lines_of(text);
    match run(deck, path, lines) {
        Progress::Reading(st, cards) => finish(deck, path, st, cards, lines.len() as usize),
        other => other,
    }
}

/// Once the scan has panicked, it stays panicked.
pub proof fn lemma_scan_panic_stays(t: Seq<char>, k: int)
    requires
        0 <= k <= t.len(),
        scan(t.take(k)).panicked,
    ensures
        scan(t).panicked,
    decreases t.len(),
{
    if k < t.len() {
        assert(t.drop_last().take(k) =~= t.take(k));
        lemma_scan_panic_stays(t.drop_last(), k);
    } else {
        assert(t.take(k) =~= t);
    }
}

/// Once parsing has stopped, the later lines change nothing.
pub proof fn lemma_run_stuck(deck: Seq<char>, path: Seq<char>, lines: Seq<Seq<char>>, k: int)
    requires
        0 <= k <= lines.len(),
        !(run(deck, path, lines.take(k)) is Reading),
    ensures
        run(deck, path, lines) == run(deck, path, lines.take(k)),
    decreases lines.len(),
{
    if k < lines.len() {
        assert(lines.drop_last().take(k) =~= lines.take(k));
        lemma_run_stuck(deck, path, lines.drop_last(), k);
    } else {
        assert(lines.take(k) =~= lines);
    }
}

// ----------------------------------------------------------------------------
// The parser.
// ----------------------------------------------------------------------------

/// Parses the cards of one deck file.
pub struct Parser {
    deck_name: String,
    file_path: String,
}

enum State {
    Initial,
    ReadingQuestion { question: Vec<char>, start: usize },
    ReadingAnswer { question: Vec<char>, answer: Vec<char>, start: usize },
    ReadingCloze { text: Vec<char>, start: usize },
}

impl View for State {
    type V = StateView;

    closed spec fn view(&self) -> StateView {
        match self {
            State::Initial => StateView::Initial,
            State::ReadingQuestion { question, start } => StateView::Question {
                question: question@,
                start: *start,
            },
            State::ReadingAnswer { question, answer, start } => StateView::Answer {
                question: question@,
                answer: answer@,
                start: *start,
            },
            State::ReadingCloze { text, start } => StateView::Cloze { text: text@, start: *start },
        }
    }
}

enum Line {
    StartQuestion(Vec<char>),
    StartAnswer(Vec<char>),
    StartCloze(Vec<char>),
    Text(Vec<char>),
}

impl View for Line {
    type V = LineView;

    closed spec fn view(&self) -> LineView {
        match self {
            Line::StartQuestion(t) => LineView::Question(t@),
            Line::StartAnswer(t) => LineView::Answer(t@),
            Line::StartCloze(t) => LineView::Cloze(t@),
            Line::Text(t) => LineView::Text(t@),
        }
    }
}

fn is_question(line: &[char]) -> (r: bool)
    ensures
        r == has_prefix(line@, seq!['Q', ':']),
{
    let r = line.len() >= 2 && line[0] == 'Q' && line[1] == ':';
    assert(r == has_prefix(line@, seq!['Q', ':'])) by {
        if line@.len() >= 2 {
            assert(line@.take(2) == seq![line@[0], line@[1]]);
        }
    }
    r
}

fn is_answer(line: &[char]) -> (r: bool)
    ensures
        r == has_prefix(line@, seq!['A', ':']),
{
    let r = line.len() >= 2 && line[0] == 'A' && line[1] == ':';
    assert(r == has_prefix(line@, seq!['A', ':'])) by {
        if line@.len() >= 2 {
            assert(line@.take(2) == seq![line@[0], line@[1]]);
        }
    }
    r
}

fn is_cloze(line: &[char]) -> (r: bool)
    ensures
        r == has_prefix(line@, seq!['C', ':']),
{
    let r = line.len() >= 2 && line[0] == 'C' && line[1] == ':';
    assert(r == has_prefix(line@, seq!['C', ':'])) by {
        if line@.len() >= 2 {
            assert(line@.take(2) == seq![line@[0], line@[1]]);
        }
    }
    r
}

fn trim_tag(line: &[char]) -> (r: Vec<char>)
    requires
        line@.len() >= 2,
    ensures
        r@ == tag_text(line@),
{
    let rest = sub_chars(line, 2, line.len());
    assert(rest@ =~= line@.skip(2));
    trim_chars(rest.as_slice())
}

impl Line {
    fn read(line: &[char]) -> (r: Line)
        ensures
            r@ == read_line(line@),
    {
        if is_question(line) {
            Line::StartQuestion(trim_tag(line))
        } else if is_answer(line) {
            Line::StartAnswer(trim_tag(line))
        } else if is_cloze(line) {
            Line::StartCloze(trim_tag(line))
        } else {
            let t = sub_chars(line, 0, line.len());
            assert(t@ =~= line@);
            Line::Text(t)
        }
    }
}

fn join_chars(a: Vec<char>, b: &[char]) -> (r: Vec<char>)
    ensures
        r@ == join_line(a@, b@),
{
    let mut a = a;
    a.push('\n');
    append_chars(&mut a, b);
    a
}

fn remove_brackets_chars(t: &[char]) -> (r: Vec<char>)
    ensures
        r@ == remove_brackets(t@),
{
    let mut r: Vec<char> = Vec::new();
    let mut i: usize = 0;
    while i < t.len()
        invariant
            i <= t@.len(),
            r@ == remove_brackets(t@.take(i as int)),
        decreases t.len() - i,
    {
        assert(t@.take(i + 1).drop_last() =~= t@.take(i as int));
        if t[i] != '[' && t[i] != ']' {
            r.push(t[i]);
        }
        i = i + 1;
    }
    assert(t@.take(t@.len() as int) =~= t@);
    r
}

/// Does the scan of the cloze text `text` panic?
fn scan_panics(text: &[char]) -> (r: bool)
    ensures
        r == scan(text@).panicked,
{
    let mut index: usize = 0;
    let mut open = false;
    let mut image_mode = false;
    let mut i: usize = 0;
    assert(text@.take(0) =~= Seq::<char>::empty());
    while i < text.len()
        invariant
            i <= text@.len(),
            index <= i,
            ({
                let st = scan(text@.take(i as int));
                &&& !st.panicked
                &&& st.index == index
                &&& st.image == image_mode
                &&& (st.start is Some) == open
            }),
        decreases text.len() - i,
    {
        let c = text[i];
        assert(text@.take(i + 1).drop_last() =~= text@.take(i as int));
        if c == '[' {
            if !image_mode {
                open = true;
            }
        } else if c == ']' {
            if image_mode {
                image_mode = false;
            } else if open {
                if index == 0 {
                    proof {
                        lemma_scan_panic_stays(text@, i + 1);
                    }
                    return true;
                }
                open = false;
            }
        } else if c == '!' {
            image_mode = true;
        } else {
            index = index + 1;
        }
        i = i + 1;
    }
    assert(text@.take(text@.len() as int) =~= text@);
    false
}

impl Parser {
    /// The deck name and file path of this parser.
    pub closed spec fn deck(&self) -> Seq<char> {
        self.deck_name@
    }

    /// The path of the file this parser reads.
    pub closed spec fn path(&self) -> Seq<char> {
        self.file_path@
    }

    /// A parser for the file at `file_path` of the deck `deck_name`.
    pub fn new(deck_name: String, file_path: String) -> (r: Parser)
        ensures
            r.deck() == deck_name@,
            r.path() == file_path@,
    {
        Parser { deck_name, file_path }
    }

    fn card(&self, range: (usize, usize), content: CardContent) -> (r: Card)
        ensures
            r@ == (CardView {
                deck_name: self.deck(),
                file_path: self.path(),
                range,
                content: content@,
            }),
    {
        Card::new(self.deck_name.clone(), self.file_path.clone(), range, content)
    }

    fn basic(&self, range: (usize, usize), question: &[char], answer: &[char]) -> (r: Card)
        ensures
            r@ == basic_card(self.deck(), self.path(), range, question@, answer@),
    {
        let content = CardContent::Basic {
            question: string_from_chars(question),
            answer: string_from_chars(answer),
        };
        self.card(range, content)
    }

    /// The cloze cards of the text `text`.
    fn parse_cloze_cards(&self, text: &[char], range: (usize, usize)) -> (r: Fallible<Vec<Card>>)
        requires
            cloze_cards(self.deck(), self.path(), range, text@) is Some,
        ensures
            r matches Ok(cards) && card_views(cards@) == cloze_cards(
                self.deck(),
                self.path(),
                range,
                text@,
            )->0,
    {
        let mut cards: Vec<Card> = Vec::new();
        let clean = remove_brackets_chars(text);
        let clean_text = string_from_chars(clean.as_slice());
        let ghost clean_view = remove_brackets(text@);
        let mut start: Option<usize> = None;
        let mut index: usize = 0;
        let mut image_mode = false;
        let mut i: usize = 0;
        proof {
            assert(text@.take(0) =~= Seq::<char>::empty());
        }
        while i < text.len()
            invariant
                i <= text@.len(),
                clean_text@ == clean_view,
                clean_view == remove_brackets(text@),
                index <= i,
                ({
                    let st = scan(text@.take(i as int));
                    &&& !st.panicked
                    &&& st.index == index
                    &&& st.image == image_mode
                    &&& st.start == (match start {
                        Some(s) => Some(s as nat),
                        None => None::<nat>,
                    })
                    &&& card_views(cards@) == st.spans.map_values(
                        |sp: (nat, nat)| cloze_card(self.deck(), self.path(), range, clean_view, sp),
                    )
                }),
                !scan(text@).panicked,
            decreases text.len() - i,
        {
            let c = text[i];
            let ghost before = scan(text@.take(i as int));
            assert(text@.take(i + 1).drop_last() =~= text@.take(i as int));
            assert(scan(text@.take(i + 1)) == scan_step(before, c));
            proof {
                if scan(text@.take(i + 1)).panicked {
                    lemma_scan_panic_stays(text@, i + 1);
                }
            }
            if c == '[' {
                if !image_mode {
                    start = Some(index);
                }
            } else if c == ']' {
                if image_mode {
                    image_mode = false;
                } else if let Some(s) = start {
                    let end = index;
                    let content = CardContent::Cloze { text: clean_text.clone(), start: s, end: end - 1 };
                    let card = self.card(range, content);
                    let ghost old_cards = cards@;
                    cards.push(card);
                    start = None;
                    proof {
                        let after = scan(text@.take(i + 1));
                        assert(card_views(cards@) =~= card_views(old_cards).push(card@));
                        assert(after.spans =~= before.spans.push((s as nat, (end - 1) as nat)));
                        assert(after.spans.map_values(
                            |sp: (nat, nat)| cloze_card(self.deck(), self.path(), range, clean_view, sp),
                        ) =~= before.spans.map_values(
                            |sp: (nat, nat)| cloze_card(self.deck(), self.path(), range, clean_view, sp),
                        ).push(cloze_card(self.deck(), self.path(), range, clean_view, (s as nat, (end - 1) as nat))));
                    }
                }
            } else if c == '!' {
                image_mode = true;
            } else {
                index = index + 1;
            }
            i = i + 1;
        }
        assert(text@.take(text@.len() as int) =~= text@);
        Ok(cards)
    }

    fn push_cloze(
        &self,
        cards: &mut Vec<Card>,
        text: &[char],
        range: (usize, usize),
    )
        requires
            cloze_cards(self.deck(), self.path(), range, text@) is Some,
        ensures
            card_views(final(cards)@) == card_views(old(cards)@) + cloze_cards(
                self.deck(),
                self.path(),
                range,
                text@,
            )->0,
    {
        let r = self.parse_cloze_cards(text, range);
        match r {
            Ok(new_cards) => {
                let mut new_cards = new_cards;
                let ghost added = new_cards@;
                cards.append(&mut new_cards);
                assert(card_views(cards@) =~= card_views(old(cards)@) + card_views(added));
            },
            Err(_) => {},
        }
    }

    fn parse_line(&self, state: State, line: Line, i: usize, cards: &mut Vec<Card>) -> (r: Fallible<State>)
        requires
            !(step(self.deck(), self.path(), state@, card_views(old(cards)@), line@, i) is Panicked),
        ensures
            match step(self.deck(), self.path(), state@, card_views(old(cards)@), line@, i) {
                Progress::Reading(st, cs) => r matches Ok(s) && s@ == st && card_views(final(cards)@) == cs,
                Progress::Failed(m) => r matches Err(e) && e.message() == m,
                Progress::Panicked => false,
            },
    {
        match state {
            State::Initial => match line {
                Line::StartQuestion(text) => Ok(State::ReadingQuestion { question: text, start: i }),
                Line::StartAnswer(_) => crate::error::fail("Answer without question.".to_owned()),
                Line::StartCloze(text) => Ok(State::ReadingCloze { text, start: i }),
                Line::Text(_) => Ok(State::Initial),
            },
            State::ReadingQuestion { question, start } => match line {
                Line::StartQuestion(_) => crate::error::fail("New question without answer.".to_owned()),
                Line::StartAnswer(text) => Ok(State::ReadingAnswer { question, answer: text, start }),
                Line::StartCloze(_) => crate::error::fail(
                    "Started a cloze card inside a question card question.".to_owned(),
                ),
                Line::Text(text) => Ok(
                    State::ReadingQuestion { question: join_chars(question, text.as_slice()), start },
                ),
            },
            State::ReadingAnswer { question, answer, start } => match line {
                Line::StartQuestion(text) => {
                    let card = self.basic((start, i), question.as_slice(), answer.as_slice());
                    cards.push(card);
                    Ok(State::ReadingQuestion { question: text, start: i })
                },
                Line::StartAnswer(_) => crate::error::fail("New answer without question.".to_owned()),
                Line::StartCloze(text) => {
                    let card = self.basic((start, i), question.as_slice(), answer.as_slice());
                    cards.push(card);
                    Ok(State::ReadingCloze { text, start: i })
                },
                Line::Text(text) => Ok(
                    State::ReadingAnswer {
                        question,
                        answer: join_chars(answer, text.as_slice()),
                        start,
                    },
                ),
            },
            State::ReadingCloze { text, start } => match line {
                Line::StartQuestion(new_text) => {
                    self.push_cloze(cards, text.as_slice(), (start, i));
                    Ok(State::ReadingQuestion { question: new_text, start: i })
                },
                Line::StartAnswer(_) => crate::error::fail(
                    "Found answer tag while reading a cloze card.".to_owned(),
                ),
                Line::StartCloze(new_text) => {
                    self.push_cloze(cards, text.as_slice(), (start, i));
                    Ok(State::ReadingCloze { text: new_text, start: i })
                },
                Line::Text(new_text) => Ok(
                    State::ReadingCloze { text: join_chars(text, new_text.as_slice()), start },
                ),
            },
        }
    }

    fn finalize(&self, state: State, n: usize, cards: &mut Vec<Card>) -> (r: Fallible<()>)
        requires
            !(finish(self.deck(), self.path(), state@, card_views(old(cards)@), n) is Panicked),
        ensures
            match finish(self.deck(), self.path(), state@, card_views(old(cards)@), n) {
                Progress::Reading(_, cs) => r is Ok && card_views(final(cards)@) == cs,
                Progress::Failed(m) => r matches Err(e) && e.message() == m,
                Progress::Panicked => false,
            },
    {
        match state {
            State::Initial => Ok(()),
            State::ReadingQuestion { .. } => crate::error::fail(
                "Unfinished question without answer at EOF.".to_owned(),
            ),
            State::ReadingAnswer { question, answer, start } => {
                let card = self.basic((start, n), question.as_slice(), answer.as_slice());
                cards.push(card);
                Ok(())
            },
            State::ReadingCloze { text, start } => {
                self.push_cloze(cards, text.as_slice(), (start, n));
                Ok(())
            },
        }
    }

    /// Would the step from `state` on `line` panic?
    fn step_panics(&self, state: &State, line: &Line, i: usize, Ghost(cards): Ghost<Seq<CardView>>) -> (r: bool)
        ensures
            r == (step(self.deck(), self.path(), state@, cards, line@, i) is Panicked),
    {
        match (state, line) {
            (State::ReadingCloze { text, .. }, Line::StartQuestion(_)) => scan_panics(text.as_slice()),
            (State::ReadingCloze { text, .. }, Line::StartCloze(_)) => scan_panics(text.as_slice()),
            _ => false,
        }
    }

    /// Parse all the cards in the given text where parsing is defined:
    /// `None` where it is not (a deletion closed before any character of its
    /// cloze text, whose end would lie before the start of the text).
    pub fn parse_checked(&self, text: &str) -> (r: Option<Fallible<Vec<Card>>>)
        ensures
            match parse_text(self.deck(), self.path(), text@) {
                Progress::Reading(_, cs) => r matches Some(Ok(cards)) && card_views(cards@) == cs,
                Progress::Failed(m) => r matches Some(Err(e)) && e.message() == m,
                Progress::Panicked => r is None,
            },
    {
        let chars = crate::text::chars_of(text);
        let lines = crate::text::split_lines(chars.as_slice());
        let ghost lv = crate::text::char_vecs(lines@);
        let mut cards: Vec<Card> = Vec::new();
        let mut state = State::Initial;
        let mut i: usize = 0;
        assert(lv.take(0) =~= Seq::<Seq<char>>::empty());
        assert(card_views(cards@) =~= Seq::<CardView>::empty());
        while i < lines.len()
            invariant
                i <= lines@.len(),
                lv == crate::text::char_vecs(lines@),
                lv == lines_of(text@),
                run(self.deck(), self.path(), lv.take(i as int)) == Progress::Reading(
                    state@,
                    card_views(cards@),
                ),
            decreases lines.len() - i,
        {
            let line = Line::read(lines[i].as_slice());
            let ghost prefix = lv.take(i + 1);
            assert(prefix.drop_last() =~= lv.take(i as int));
            assert(prefix.last() == lines@[i as int]@);
            let ghost before_cards = card_views(cards@);
            let ghost before_state = state@;
            let ghost outcome = step(self.deck(), self.path(), before_state, before_cards, line@, i);
            assert(run(self.deck(), self.path(), prefix) == outcome);
            if self.step_panics(&state, &line, i, Ghost(before_cards)) {
                proof {
                    lemma_run_stuck(self.deck(), self.path(), lv, i + 1);
                }
                return None;
            }
            let r = self.parse_line(state, line, i, &mut cards);
            match r {
                Ok(s) => {
                    state = s;
                },
                Err(e) => {
                    proof {
                        lemma_run_stuck(self.deck(), self.path(), lv, i + 1);
                    }
                    return Some(Err(e));
                },
            }
            i = i + 1;
        }
        assert(lv.take(lv.len() as int) =~= lv);
        let finishes_in_panic = match &state {
            State::ReadingCloze { text, .. } => scan_panics(text.as_slice()),
            _ => false,
        };
        if finishes_in_panic {
            return None;
        }
        match self.finalize(state, lines.len(), &mut cards) {
            Ok(()) => Some(Ok(cards)),
            Err(e) => Some(Err(e)),
        }
    }

    /// Parse all the cards in the given text.
    pub fn parse(&self, text: &str) -> (r: Fallible<Vec<Card>>)
        requires
            !(parse_text(self.deck(), self.path(), text@) is Panicked),
        ensures
            match parse_text(self.deck(), self.path(), text@) {
                Progress::Reading(_, cs) => r matches Ok(cards) && card_views(cards@) == cs,
                Progress::Failed(m) => r matches Err(e) && e.message() == m,
                Progress::Panicked => false,
            },
    {
        match self.parse_checked(text) {
            Some(r) => r,
            None => {
                assert(false);
                Err(crate::error::ErrorReport::new(""))
            },
        }
    }

}

// ----------------------------------------------------------------------------
// Deck files.
// ----------------------------------------------------------------------------

/// The last component of `p`, if it is a name, as `Path::file_name` gives
/// it.
pub open spec fn file_name(p: Seq<char>) -> Option<Seq<char>> {
    let cs = components(p);
    if cs.len() > 0 && cs.last() is Normal {
        Some(cs.last()->Normal_0)
    } else {
        None
    }
}

/// The position of the last `.` of `s`, if any.
pub open spec fn last_dot(s: Seq<char>) -> Option<int>
    decreases s.len(),
{
    if s.len() == 0 {
        None
    } else if s.last() == '.' {
        Some(s.len() - 1)
    } else {
        last_dot(s.drop_last())
    }
}

/// A file name split into stem and extension at its last `.`, as
/// `Path::file_stem` and `Path::extension` give them: no extension when
/// there is no `.`, or when the only one begins the name.
pub open spec fn split_extension(name: Seq<char>) -> (Seq<char>, Option<Seq<char>>) {
    match last_dot(name) {
        None => (name, None),
        Some(i) => if i == 0 {
            (name, None)
        } else {
            (name.take(i), Some(name.skip(i + 1)))
        },
    }
}

/// The deck of a file: its stem, when its extension is `md`.
pub open spec fn deck_of_file(p: Seq<char>) -> Option<Seq<char>> {
    match file_name(p) {
        None => None,
        Some(n) => match split_extension(n) {
            (stem, Some(ext)) => if ext == "md"@ {
                Some(stem)
            } else {
                None
            },
            _ => None,
        },
    }
}

/// The deck name of the file at `path`: the file's stem, when its
/// extension is `md`; `None` for any other file.
pub fn deck_name_of_file(path: &str) -> (r: Option<String>)
    ensures
        match deck_of_file(path@) {
            Some(d) => r matches Some(s) && s@ == d,
            None => r is None,
        },
{
    let p = crate::text::chars_of(path);
    let cs = crate::paths::path_components(p.as_slice());
    if cs.len() == 0 {
        return None;
    }
    let name = match &cs[cs.len() - 1] {
        crate::paths::Component::Normal(n) => n,
        _ => {
            return None;
        },
    };
    assert(crate::paths::comp_views(cs@).last() == cs@[cs@.len() - 1]@);
    let mut j: usize = name.len();
    assert(name@.take(j as int) =~= name@);
    while j > 0 && name[j - 1] != '.'
        invariant
            j <= name@.len(),
            last_dot(name@) == last_dot(name@.take(j as int)),
        decreases j,
    {
        assert(name@.take(j as int).drop_last() =~= name@.take(j - 1));
        j = j - 1;
    }
    if j <= 1 {
        proof {
            if j == 1 {
                assert(name@.take(1).last() == name@[0]);
            } else {
                assert(name@.take(0) =~= Seq::<char>::empty());
            }
        }
        return None;
    }
    assert(name@.take(j as int).last() == name@[j - 1]);
    let ext = crate::text::sub_chars(name.as_slice(), j, name.len());
    let md = crate::text::chars_of("md");
    assert(ext@ =~= name@.skip(j as int));
    if !crate::text::chars_eq(ext.as_slice(), md.as_slice()) {
        return None;
    }
    let stem = crate::text::sub_chars(name.as_slice(), 0, j - 1);
    assert(stem@ =~= name@.take(j - 1));
    Some(string_from_chars(stem.as_slice()))
}

/// The hash of a card's content, by which decks are ordered.
pub open spec fn card_key(c: CardView) -> u64 {
    content_hash(c.content).value
}

/// `x` put into `sorted` after every card whose hash is at most its own.
pub open spec fn insert_by_hash(sorted: Seq<CardView>, x: CardView) -> Seq<CardView>
    decreases sorted.len(),
{
    if sorted.len() == 0 || card_key(sorted.last()) <= card_key(x) {
        sorted.push(x)
    } else {
        insert_by_hash(sorted.drop_last(), x).push(sorted.last())
    }
}

/// The cards ordered by hash, cards of equal hash in their order (a
/// stable sort).
pub open spec fn sorted_by_hash(cs: Seq<CardView>) -> Seq<CardView>
    decreases cs.len(),
{
    if cs.len() == 0 {
        seq![]
    } else {
        insert_by_hash(sorted_by_hash(cs.drop_last()), cs.last())
    }
}

fn insert_by_hash_exec(v: &mut Vec<Card>, x: Card)
    ensures
        card_views(final(v)@) == insert_by_hash(card_views(old(v)@), x@),
{
    let ghost s = card_views(v@);
    let ghost xv = x@;
    let xk = x.hash().value;
    let mut k: usize = v.len();
    assert(s.take(k as int) =~= s);
    assert(s.skip(k as int) =~= Seq::<CardView>::empty());
    assert(insert_by_hash(s, xv) =~= insert_by_hash(s.take(k as int), xv) + s.skip(k as int));
    while k > 0 && v[k - 1].hash().value > xk
        invariant
            k <= v@.len(),
            card_views(v@) == s,
            xv == x@,
            xk == card_key(xv),
            insert_by_hash(s, xv) == insert_by_hash(s.take(k as int), xv) + s.skip(k as int),
        decreases k,
    {
        proof {
            assert(s[k - 1] == v@[k - 1]@);
            assert(s.take(k as int).drop_last() =~= s.take(k - 1));
            assert(s.take(k as int).last() == s[k - 1]);
            assert(insert_by_hash(s.take(k as int), xv) == insert_by_hash(s.take(k - 1), xv).push(s[k - 1]));
            assert(insert_by_hash(s.take(k - 1), xv).push(s[k - 1]) + s.skip(k as int) =~= insert_by_hash(
                s.take(k - 1),
                xv,
            ) + s.skip(k - 1));
        }
        k = k - 1;
    }
    proof {
        if k > 0 {
            assert(s[k - 1] == v@[k - 1]@);
            assert(s.take(k as int).last() == s[k - 1]);
        }
        assert(insert_by_hash(s.take(k as int), xv) =~= s.take(k as int).push(xv));
    }
    v.insert(k, x);
    assert(card_views(v@) =~= s.take(k as int).push(xv) + s.skip(k as int));
}

/// Sort cards by their hash, stably: a deterministic order that looks
/// random, mixing the decks.
pub fn sort_by_hash(cards: Vec<Card>) -> (r: Vec<Card>)
    ensures
        card_views(r@) == sorted_by_hash(card_views(cards@)),
{
    let ghost cv = card_views(cards@);
    let mut sorted: Vec<Card> = Vec::new();
    let mut i: usize = 0;
    assert(cv.take(0) =~= Seq::<CardView>::empty());
    assert(card_views(sorted@) =~= Seq::<CardView>::empty());
    while i < cards.len()
        invariant
            i <= cards@.len(),
            cv == card_views(cards@),
            card_views(sorted@) == sorted_by_hash(cv.take(i as int)),
        decreases cards.len() - i,
    {
        proof {
            assert(cv.take(i + 1).drop_last() =~= cv.take(i as int));
            assert(cv.take(i + 1).last() == cards@[i as int]@);
        }
        insert_by_hash_exec(&mut sorted, cards[i].clone());
        i = i + 1;
    }
    assert(cv.take(cv.len() as int) =~= cv);
    sorted
}

/// Are the cards in order of hash?
pub open spec fn hash_sorted(cs: Seq<CardView>) -> bool {
    forall|i: int, j: int| 0 <= i < j < cs.len() ==> card_key(#[trigger] cs[i]) <= card_key(#[trigger] cs[j])
}

proof fn lemma_insert_by_hash(s: Seq<CardView>, x: CardView)
    ensures
        insert_by_hash(s, x).len() == s.len() + 1,
        forall|k: int| 0 <= k < insert_by_hash(s, x).len() ==> (#[trigger] insert_by_hash(s, x)[k] == x
            || exists|j: int| 0 <= j < s.len() && s[j] == insert_by_hash(s, x)[k]),
        hash_sorted(s) ==> hash_sorted(insert_by_hash(s, x)),
    decreases s.len(),
{
    let r = insert_by_hash(s, x);
    if s.len() == 0 || card_key(s.last()) <= card_key(x) {
        assert forall|k: int| 0 <= k < r.len() implies (#[trigger] r[k] == x || exists|j: int| 0 <= j < s.len() && s[j] == r[k]) by {
            if k < s.len() {
                assert(r[k] == s[k]);
            }
        }
        if hash_sorted(s) {
            assert forall|i: int, j: int| 0 <= i < j < r.len() implies card_key(#[trigger] r[i]) <= card_key(#[trigger] r[j]) by {
                assert(r[i] == s[i]);
                if j == s.len() {
                    assert(card_key(s[i]) <= card_key(s[s.len() - 1]));
                } else {
                    assert(r[j] == s[j]);
                }
            }
        }
    } else {
        let p = insert_by_hash(s.drop_last(), x);
        lemma_insert_by_hash(s.drop_last(), x);
        assert forall|k: int| 0 <= k < r.len() implies (#[trigger] r[k] == x || exists|j: int| 0 <= j < s.len() && s[j] == r[k]) by {
            if k < p.len() {
                assert(r[k] == p[k]);
                if p[k] != x {
                    let j = choose|j: int| 0 <= j < s.drop_last().len() && s.drop_last()[j] == p[k];
                    assert(s[j] == s.drop_last()[j]);
                }
            } else {
                assert(r[k] == s[s.len() - 1]);
            }
        }
        if hash_sorted(s) {
            assert(hash_sorted(s.drop_last())) by {
                assert forall|i: int, j: int| 0 <= i < j < s.drop_last().len() implies card_key(#[trigger] s.drop_last()[i]) <= card_key(#[trigger] s.drop_last()[j]) by {
                    assert(s.drop_last()[i] == s[i] && s.drop_last()[j] == s[j]);
                }
            }
            assert forall|i: int, j: int| 0 <= i < j < r.len() implies card_key(#[trigger] r[i]) <= card_key(#[trigger] r[j]) by {
                assert(r[i] == p[i]);
                if j < p.len() {
                    assert(r[j] == p[j]);
                } else {
                    assert(r[j] == s[s.len() - 1]);
                    if p[i] != x {
                        let m = choose|m: int| 0 <= m < s.drop_last().len() && s.drop_last()[m] == p[i];
                        assert(s[m] == p[i]);
                    }
                }
            }
        }
    }
}

/// The cards of a collection come out in order of hash.
pub proof fn law_sorted_by_hash(cs: Seq<CardView>)
    ensures
        hash_sorted(sorted_by_hash(cs)),
        sorted_by_hash(cs).len() == cs.len(),
    decreases cs.len(),
{
    if cs.len() > 0 {
        law_sorted_by_hash(cs.drop_last());
        lemma_insert_by_hash(sorted_by_hash(cs.drop_last()), cs.last());
    }
}

/// Do all the cards come from deck `deck` and file `path`?
pub open spec fn all_from(cs: Seq<CardView>, deck: Seq<char>, path: Seq<char>) -> bool {
    forall|i: int| 0 <= i < cs.len() ==> (#[trigger] cs[i]).deck_name == deck && cs[i].file_path == path
}

proof fn lemma_with_cloze_from(
    deck: Seq<char>,
    path: Seq<char>,
    range: (usize, usize),
    t: Seq<char>,
    cards: Seq<CardView>,
    next: StateView,
)
    requires
        all_from(cards, deck, path),
    ensures
        with_cloze(deck, path, range, t, cards, next) matches Progress::Reading(_, cs) ==> all_from(cs, deck, path),
{
    if let Some(new) = cloze_cards(deck, path, range, t) {
        let cs = cards + new;
        assert forall|i: int| 0 <= i < cs.len() implies (#[trigger] cs[i]).deck_name == deck && cs[i].file_path == path by {
            if i >= cards.len() {
                assert(cs[i] == new[i - cards.len()]);
            }
        }
    }
}

proof fn lemma_step_from(
    deck: Seq<char>,
    path: Seq<char>,
    st: StateView,
    cards: Seq<CardView>,
    line: LineView,
    i: usize,
)
    requires
        all_from(cards, deck, path),
    ensures
        step(deck, path, st, cards, line, i) matches Progress::Reading(_, cs) ==> all_from(cs, deck, path),
{
    match st {
        StateView::Cloze { text, start } => {
            lemma_with_cloze_from(deck, path, (start, i), text, cards, StateView::Initial);
            match line {
                LineView::Question(q) => lemma_with_cloze_from(
                    deck,
                    path,
                    (start, i),
                    text,
                    cards,
                    StateView::Question { question: q, start: i },
                ),
                LineView::Cloze(t) => lemma_with_cloze_from(
                    deck,
                    path,
                    (start, i),
                    text,
                    cards,
                    StateView::Cloze { text: t, start: i },
                ),
                _ => {},
            }
        },
        _ => {},
    }
}

proof fn lemma_run_from(deck: Seq<char>, path: Seq<char>, lines: Seq<Seq<char>>)
    ensures
        run(deck, path, lines) matches Progress::Reading(_, cs) ==> all_from(cs, deck, path),
    decreases lines.len(),
{
    if lines.len() > 0 {
        lemma_run_from(deck, path, lines.drop_last());
        if let Progress::Reading(st, cards) = run(deck, path, lines.drop_last()) {
            lemma_step_from(deck, path, st, cards, read_line(lines.last()), (lines.len() - 1) as usize);
        }
    }
}

/// Every card parsed from a deck file carries that deck's name and that
/// file's path.
pub proof fn law_parsed_cards_from(deck: Seq<char>, path: Seq<char>, text: Seq<char>)
    ensures
        parse_text(deck, path, text) matches Progress::Reading(_, cs) ==> all_from(cs, deck, path),
{
    let lines = lines_of(text);
    lemma_run_from(deck, path, lines);
    if let Progress::Reading(st, cards) = run(deck, path, lines) {
        match st {
            StateView::Cloze { text: t, start } => lemma_with_cloze_from(
                deck,
                path,
                (start, lines.len() as usize),
                t,
                cards,
                StateView::Initial,
            ),
            _ => {},
        }
    }
}

/// A line that starts with none of the tags `Q:`, `A:` and `C:`.
pub open spec fn untagged(l: Seq<char>) -> bool {
    !has_prefix(l, seq!['Q', ':']) && !has_prefix(l, seq!['A', ':']) && !has_prefix(l, seq!['C', ':'])
}

/// While a question is read, an untagged line belongs to it: the question
/// grows by a line break and that line, and nothing else changes.
pub proof fn law_question_continues(
    deck: Seq<char>,
    path: Seq<char>,
    lines: Seq<Seq<char>>,
    l: Seq<char>,
    q: Seq<char>,
    start: usize,
    cards: Seq<CardView>,
)
    requires
        run(deck, path, lines) == Progress::Reading(StateView::Question { question: q, start }, cards),
        untagged(l),
    ensures
        run(deck, path, lines.push(l)) == Progress::Reading(
            StateView::Question { question: q + seq!['\n'] + l, start },
            cards,
        ),
{
    assert(lines.push(l).drop_last() =~= lines);
    assert(q.push('\n') + l =~= q + seq!['\n'] + l);
}

/// While an answer is read, an untagged line belongs to it: the answer
/// grows by a line break and that line, and nothing else changes.
pub proof fn law_answer_continues(
    deck: Seq<char>,
    path: Seq<char>,
    lines: Seq<Seq<char>>,
    l: Seq<char>,
    q: Seq<char>,
    a: Seq<char>,
    start: usize,
    cards: Seq<CardView>,
)
    requires
        run(deck, path, lines) == Progress::Reading(StateView::Answer { question: q, answer: a, start }, cards),
        untagged(l),
    ensures
        run(deck, path, lines.push(l)) == Progress::Reading(
            StateView::Answer { question: q, answer: a + seq!['\n'] + l, start },
            cards,
        ),
{
    assert(lines.push(l).drop_last() =~= lines);
    assert(a.push('\n') + l =~= a + seq!['\n'] + l);
}

/// While a cloze text is read, an untagged line belongs to it.
pub proof fn law_cloze_continues(
    deck: Seq<char>,
    path: Seq<char>,
    lines: Seq<Seq<char>>,
    l: Seq<char>,
    t: Seq<char>,
    start: usize,
    cards: Seq<CardView>,
)
    requires
        run(deck, path, lines) == Progress::Reading(StateView::Cloze { text: t, start }, cards),
        untagged(l),
    ensures
        run(deck, path, lines.push(l)) == Progress::Reading(
            StateView::Cloze { text: t + seq!['\n'] + l, start },
            cards,
        ),
{
    assert(lines.push(l).drop_last() =~= lines);
    assert(t.push('\n') + l =~= t + seq!['\n'] + l);
}

/// An `A:` line after a question starts its answer, with the whole
/// question kept: the text after the tag, trimmed.
pub proof fn law_answer_keeps_question(
    deck: Seq<char>,
    path: Seq<char>,
    lines: Seq<Seq<char>>,
    l: Seq<char>,
    q: Seq<char>,
    start: usize,
    cards: Seq<CardView>,
)
    requires
        run(deck, path, lines) == Progress::Reading(StateView::Question { question: q, start }, cards),
        has_prefix(l, seq!['A', ':']),
        !has_prefix(l, seq!['Q', ':']),
    ensures
        run(deck, path, lines.push(l)) == Progress::Reading(
            StateView::Answer { question: q, answer: trim(l.skip(2)), start },
            cards,
        ),
{
    assert(lines.push(l).drop_last() =~= lines);
}

/// A `Q:` line after an answer ends the card: a basic card with that
/// question and answer, over the lines from its `Q:` line to this one, is
/// added to those found, and a new question starts.
pub proof fn law_question_ends_card(
    deck: Seq<char>,
    path: Seq<char>,
    lines: Seq<Seq<char>>,
    l: Seq<char>,
    q: Seq<char>,
    a: Seq<char>,
    start: usize,
    cards: Seq<CardView>,
)
    requires
        run(deck, path, lines) == Progress::Reading(StateView::Answer { question: q, answer: a, start }, cards),
        has_prefix(l, seq!['Q', ':']),
    ensures
        run(deck, path, lines.push(l)) == Progress::Reading(
            StateView::Question { question: trim(l.skip(2)), start: lines.len() as usize },
            cards.push(
                CardView {
                    deck_name: deck,
                    file_path: path,
                    range: (start, lines.len() as usize),
                    content: ContentView::Basic { question: q, answer: a },
                },
            ),
        ),
{
    assert(lines.push(l).drop_last() =~= lines);
}

/// Before any card, a `Q:` line starts a question (the text after the tag,
/// trimmed) on that line, and an untagged line is skipped.
pub proof fn law_first_question(
    deck: Seq<char>,
    path: Seq<char>,
    lines: Seq<Seq<char>>,
    l: Seq<char>,
    cards: Seq<CardView>,
)
    requires
        run(deck, path, lines) == Progress::Reading(StateView::Initial, cards),
    ensures
        has_prefix(l, seq!['Q', ':']) ==> run(deck, path, lines.push(l)) == Progress::Reading(
            StateView::Question { question: trim(l.skip(2)), start: lines.len() as usize },
            cards,
        ),
        untagged(l) ==> run(deck, path, lines.push(l)) == Progress::Reading(StateView::Initial, cards),
{
    assert(lines.push(l).drop_last() =~= lines);
}

/// A text that ends while an answer is read ends its card: the card, with
/// that question and answer over the lines from its `Q:` line to the end,
/// is the last one parsed. A text that ends in the middle of a question is
/// refused.
pub proof fn law_end_completes_card(
    deck: Seq<char>,
    path: Seq<char>,
    text: Seq<char>,
    st: StateView,
    cards: Seq<CardView>,
)
    requires
        run(deck, path, lines_of(text)) == Progress::Reading(st, cards),
    ensures
        st matches StateView::Answer { question, answer, start } ==> parse_text(deck, path, text)
            == Progress::Reading(
            StateView::Initial,
            cards.push(
                CardView {
                    deck_name: deck,
                    file_path: path,
                    range: (start, lines_of(text).len() as usize),
                    content: ContentView::Basic { question, answer },
                },
            ),
        ),
        st is Question ==> parse_text(deck, path, text) is Failed,
        st is Initial ==> parse_text(deck, path, text) == Progress::Reading(StateView::Initial, cards),
{
}

/// A character that is neither a bracket nor `!`.
pub open spec fn plain_char(c: char) -> bool {
    c != '[' && c != ']' && c != '!'
}

/// The text of a cloze card is its text with every square bracket taken
/// out, and nothing else.
pub proof fn law_cloze_text_without_brackets(t: Seq<char>)
    ensures
        remove_brackets(t) == t.filter(|c: char| c != '[' && c != ']'),
    decreases t.len(),
{
    reveal(Seq::filter);
    if t.len() > 0 {
        law_cloze_text_without_brackets(t.drop_last());
    }
}

proof fn lemma_scan_plain(u: Seq<char>, x: Seq<char>)
    requires
        forall|i: int| 0 <= i < x.len() ==> plain_char(#[trigger] x[i]),
        !scan(u).panicked,
    ensures
        scan(u + x) == (ScanState { index: scan(u).index + x.len(), ..scan(u) }),
    decreases x.len(),
{
    if x.len() == 0 {
        assert(u + x =~= u);
    } else {
        lemma_scan_plain(u, x.drop_last());
        assert((u + x).drop_last() =~= u + x.drop_last());
        assert((u + x).last() == x.last());
        assert(plain_char(x[x.len() - 1]));
    }
}

/// A deletion `[x]` of plain characters, outside any image, covers exactly
/// its characters: its span starts at the number of characters counted
/// before it and ends at its last character, and the scan goes on past it.
pub proof fn law_deletion_span(t: Seq<char>, x: Seq<char>)
    requires
        !scan(t).panicked,
        !scan(t).image,
        x.len() > 0,
        forall|i: int| 0 <= i < x.len() ==> plain_char(#[trigger] x[i]),
    ensures
        ({
            let k = scan(t).index;
            let after = scan(t + seq!['['] + x + seq![']']);
            &&& !after.panicked
            &&& after.spans == scan(t).spans.push((k, (k + x.len() - 1) as nat))
            &&& after.index == k + x.len()
            &&& after.start is None
        }),
{
    let u = t + seq!['['];
    assert(u.drop_last() =~= t);
    assert(u.last() == '[');
    lemma_scan_plain(u, x);
    let w = t + seq!['['] + x + seq![']'];
    assert(w.drop_last() =~= u + x);
    assert(w.last() == ']');
}

} // verus!
