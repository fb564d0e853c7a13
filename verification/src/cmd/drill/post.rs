use vstd::prelude::*;

use crate::types::card::Card;
use crate::types::card::CardView;
use crate::types::card::Grade;

verus! {

/// An action of the drill page's form.
#[derive(Clone, Copy, PartialEq, Eq, Structural, Debug)]
pub enum Action {
    Reveal,
    Undo,
    End,
    Forgot,
    Hard,
    Good,
    Easy,
}

/// Is the action one of the four grades?
pub open spec fn is_grade(a: Action) -> bool {
    a is Forgot || a is Hard || a is Good || a is Easy
}

/// The grade of a grading action.
pub open spec fn grade_of(a: Action) -> Grade {
    match a {
        Action::Forgot => Grade::Forgot,
        Action::Hard => Grade::Hard,
        Action::Good => Grade::Good,
        _ => Grade::Easy,
    }
}

impl Action {
    /// The grade of a grading action (the other actions have none).
    pub fn grade(&self) -> (r: Grade)
        requires
            is_grade(*self),
        ensures
            r == grade_of(*self),
    {
        match self {
            Action::Forgot => Grade::Forgot,
            Action::Hard => Grade::Hard,
            Action::Good => Grade::Good,
            _ => Grade::Easy,
        }
    }
}

/// The form posted by the drill page.
pub struct FormData {
    pub action: Action,
}

/// A card graded in this session.
pub struct Review {
    pub card: Card,
    pub grade: Grade,
}

/// Grades that put the card back at the end of the queue.
pub open spec fn repeats(g: Grade) -> bool {
    g == Grade::Forgot || g == Grade::Hard
}

/// The state of a drill session, as values.
pub struct DrillView {
    /// Is the answer of the current card shown?
    pub reveal: bool,
    /// The cards still to review, the current one first.
    pub cards: Seq<CardView>,
    /// The reviews of this session, oldest first.
    pub reviews: Seq<(CardView, Grade)>,
    /// Has the session ended?
    pub finished: bool,
}

/// What the session's caller must do after an action.
#[derive(Clone, Copy, PartialEq, Eq, Structural, Debug)]
pub enum DrillEffect {
    /// Nothing.
    Nothing,
    /// Schedule the card of the last review with its grade.
    Reviewed,
    /// Schedule the card of the last review, then save the session.
    ReviewedAndFinished,
    /// Save the session.
    Finished,
}

/// One action on a drill session: the new state and what remains to do.
pub open spec fn drill_step(s: DrillView, a: Action) -> (DrillView, DrillEffect) {
    match a {
        Action::Reveal => (DrillView { reveal: true, ..s }, DrillEffect::Nothing),
        Action::Undo => if s.reviews.len() > 0 {
            let last = s.reviews.last();
            let cards = if repeats(last.1) && s.cards.len() > 0 {
                s.cards.drop_last()
            } else {
                s.cards
            };
            (
                DrillView {
                    reveal: false,
                    cards: cards.insert(0, last.0),
                    reviews: s.reviews.drop_last(),
                    finished: false,
                },
                DrillEffect::Nothing,
            )
        } else {
            (s, DrillEffect::Nothing)
        },
        Action::End => (DrillView { finished: true, ..s }, DrillEffect::Finished),
        _ => if s.reveal {
            let g = grade_of(a);
            let card = s.cards[0];
            let rest = s.cards.drop_first();
            let cards = if repeats(g) {
                rest.push(card)
            } else {
                rest
            };
            let done = cards.len() == 0;
            (
                DrillView {
                    reveal: false,
                    cards,
                    reviews: s.reviews.push((card, g)),
                    finished: s.finished || done,
                },
                if done {
                    DrillEffect::ReviewedAndFinished
                } else {
                    DrillEffect::Reviewed
                },
            )
        } else {
            (s, DrillEffect::Nothing)
        },
    }
}

/// The state of a drill session: the card queue and the reviews made.
pub struct DrillState {
    pub reveal: bool,
    pub cards: Vec<Card>,
    pub reviews: Vec<Review>,
    pub finished: bool,
}

impl View for DrillState {
    type V = DrillView;

    open spec fn view(&self) -> DrillView {
        DrillView {
            reveal: self.reveal,
            cards: self.cards@.map_values(|c: Card| c@),
            reviews: self.reviews@.map_values(|r: Review| (r.card@, r.grade)),
            finished: self.finished,
        }
    }
}

/// Would the action panic (a grade with the answer shown and no card)?
pub open spec fn drill_panics(s: DrillView, a: Action) -> bool {
    is_grade(a) && s.reveal && s.cards.len() == 0
}

impl DrillState {
    /// A session over `cards`, answer hidden, nothing reviewed.
    pub fn new(cards: Vec<Card>) -> (r: DrillState)
        ensures
            r@.cards == cards@.map_values(|c: Card| c@),
            r@.reviews.len() == 0,
            !r@.reveal,
            !r@.finished,
    {
        DrillState { reveal: false, cards, reviews: Vec::new(), finished: false }
    }

    /// Apply an action of the drill page: reveal the answer, undo the last
    /// review, end the session, or grade the current card (which then
    /// leaves the queue, or goes to its end if graded Forgot or Hard).
    pub fn handle_action(&mut self, action: Action) -> (r: DrillEffect)
        requires
            !drill_panics(old(self)@, action),
        ensures
            (final(self)@, r) == drill_step(old(self)@, action),
    {
        let ghost s = self@;
        match action {
            Action::Reveal => {
                if !self.reveal {
                    self.reveal = true;
                }
                DrillEffect::Nothing
            },
            Action::Undo => {
                if self.reviews.len() > 0 {
                    let last = self.reviews.pop().unwrap();
                    assert(s.reviews.drop_last() =~= self@.reviews);
                    if last.grade == Grade::Forgot || last.grade == Grade::Hard {
                        if self.cards.len() > 0 {
                            self.cards.pop();
                            assert(self@.cards =~= s.cards.drop_last());
                        }
                    }
                    let ghost before = self@.cards;
                    self.cards.insert(0, last.card);
                    assert(self@.cards =~= before.insert(0, s.reviews.last().0));
                    self.finished = false;
                    self.reveal = false;
                    assert(self@ =~= drill_step(s, action).0);
                }
                DrillEffect::Nothing
            },
            Action::End => {
                self.finished = true;
                DrillEffect::Finished
            },
            _ => {
                if self.reveal {
                    let grade = action.grade();
                    let card = self.cards.remove(0);
                    assert(self@.cards =~= s.cards.drop_first());
                    let repeat = grade == Grade::Forgot || grade == Grade::Hard;
                    if repeat {
                        let again = card.clone();
                        self.cards.push(again);
                    }
                    self.reviews.push(Review { card, grade });
                    self.reveal = false;
                    let done = self.cards.len() == 0;
                    if done {
                        self.finished = true;
                    }
                    assert(self@.reviews =~= s.reviews.push((s.cards[0], grade)));
                    assert(self@.cards =~= drill_step(s, action).0.cards);
                    if done {
                        DrillEffect::ReviewedAndFinished
                    } else {
                        DrillEffect::Reviewed
                    }
                } else {
                    DrillEffect::Nothing
                }
            },
        }
    }
}

/// Undoing a grade restores the session as it was before the answer was
/// revealed: the same queue, the same reviews, not finished.
pub proof fn law_undo_restores(s: DrillView, a: Action)
    requires
        is_grade(a),
        s.reveal,
        s.cards.len() > 0,
        !s.finished,
    ensures
        drill_step(drill_step(s, a).0, Action::Undo).0 == (DrillView { reveal: false, ..s }),
{
    let s1 = drill_step(s, a).0;
    let s2 = drill_step(s1, Action::Undo).0;
    assert(s1.reviews.last() == (s.cards[0], grade_of(a)));
    assert(s1.reviews.drop_last() =~= s.reviews);
    if repeats(grade_of(a)) {
        assert(s1.cards.drop_last() =~= s.cards.drop_first());
    }
    assert(s2.cards =~= s.cards);
}

/// Grading a revealed card moves the queue on: Good and Easy remove it,
/// Forgot and Hard move it to the end. Either way one review is added and
/// the answer is hidden again.
pub proof fn law_grade_moves_queue(s: DrillView, a: Action)
    requires
        is_grade(a),
        s.reveal,
        s.cards.len() > 0,
    ensures
        ({
            let s1 = drill_step(s, a).0;
            &&& !s1.reveal
            &&& s1.reviews == s.reviews.push((s.cards[0], grade_of(a)))
            &&& repeats(grade_of(a)) ==> s1.cards == s.cards.drop_first().push(s.cards[0])
            &&& !repeats(grade_of(a)) ==> s1.cards == s.cards.drop_first()
        }),
{
}

/// A grade ends the session exactly when it empties the queue: the last
/// card graded Good or Easy.
pub proof fn law_grade_finishes_on_last(s: DrillView, a: Action)
    requires
        is_grade(a),
        s.reveal,
        s.cards.len() > 0,
    ensures
        (drill_step(s, a).1 == DrillEffect::ReviewedAndFinished) <==> (s.cards.len() == 1
            && !repeats(grade_of(a))),
        drill_step(s, a).1 == DrillEffect::ReviewedAndFinished || drill_step(s, a).1
            == DrillEffect::Reviewed,
{
}

/// An action without the answer shown, other than undo and end, changes
/// nothing.
pub proof fn law_grade_needs_reveal(s: DrillView, a: Action)
    requires
        is_grade(a),
        !s.reveal,
    ensures
        drill_step(s, a) == (s, DrillEffect::Nothing),
{
}

/// The number of reviews that took their card out of the queue (graded
/// Good or Easy).
pub open spec fn settled_count(rs: Seq<(CardView, Grade)>) -> nat
    decreases rs.len(),
{
    if rs.len() == 0 {
        0
    } else {
        settled_count(rs.drop_last()) + if repeats(rs.last().1) {
            0nat
        } else {
            1nat
        }
    }
}

/// A session that started with `total` cards: every card is either still
/// in the queue or settled by a review, and a card graded Forgot or Hard
/// last is still queued.
pub open spec fn session_consistent(s: DrillView, total: nat) -> bool {
    &&& s.cards.len() + settled_count(s.reviews) == total
    &&& s.reviews.len() > 0 && repeats(s.reviews.last().1) ==> s.cards.len() > 0
}

/// A new session is consistent with the number of its cards.
pub proof fn law_new_session_consistent(cards: Seq<CardView>)
    ensures
        session_consistent(
            DrillView { reveal: false, cards, reviews: Seq::empty(), finished: false },
            cards.len(),
        ),
{
}

/// Every action keeps a session consistent with its starting number of
/// cards, so the cards left never exceed it.
pub proof fn law_session_stays_consistent(s: DrillView, a: Action, total: nat)
    requires
        session_consistent(s, total),
        !drill_panics(s, a),
    ensures
        session_consistent(drill_step(s, a).0, total),
        drill_step(s, a).0.cards.len() <= total,
{
    let s1 = drill_step(s, a).0;
    match a {
        Action::Undo => {
            if s.reviews.len() > 0 {
                assert(s1.reviews == s.reviews.drop_last());
            }
        },
        Action::Reveal => {},
        Action::End => {},
        _ => {
            if s.reveal {
                let g = grade_of(a);
                assert(s1.reviews.drop_last() =~= s.reviews);
                assert(s1.reviews.last().1 == g);
            }
        },
    }
}

} // verus!
