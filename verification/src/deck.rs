//! The deck: the questions of a game, served from the end.
//!
//! The current question is the last of the deck. A question set is loaded in
//! the order in which it is to be played, so loading turns it round.
use crate::question::{lemma_prepared_wf, Question, QuestionModel};
use crate::sums::{lemma_sum_take, sum};
use vstd::prelude::*;

verus! {

/// The points, in halves, that can still be won from a deck.
pub open spec fn deck_worth(deck: Seq<QuestionModel>) -> nat {
    sum(deck.map_values(|q: QuestionModel| q.worth()))
}

/// The deck that a question set gives: every question as it stands after
/// loading, the first question of the set last.
pub open spec fn loaded_deck(document: Seq<QuestionModel>) -> Seq<QuestionModel> {
    document.map_values(|q: QuestionModel| q.prepared()).reverse()
}

/// Every question of the deck is well formed.
pub open spec fn deck_wf(deck: Seq<QuestionModel>) -> bool {
    forall|i: int| 0 <= i < deck.len() ==> (#[trigger] deck[i]).wf()
}

/// A loaded deck is well formed and as long as the question set.
pub proof fn lemma_loaded_deck(document: Seq<QuestionModel>)
    ensures
        deck_wf(loaded_deck(document)),
        loaded_deck(document).len() == document.len(),
{
    let deck = loaded_deck(document);
    assert forall|i: int| 0 <= i < deck.len() implies (#[trigger] deck[i]).wf() by {
        lemma_prepared_wf(document[document.len() - 1 - i]);
    }
}

/// Loads a question set: every accepted text is put in normal form, the size
/// of every group is set, and the order of the questions is turned round.
pub fn load_deck(document: &Vec<Question>) -> (deck: Vec<Question>)
    ensures
        deck.deep_view() == loaded_deck(document.deep_view()),
{
    let mut deck: Vec<Question> = Vec::new();
    let mut left: usize = document.len();
    while left > 0
        invariant
            left <= document.len(),
            deck.len() == document.len() - left,
            forall|j: int|
                0 <= j < deck.len() ==> (#[trigger] deck[j])@ == document[document.len() - 1
                    - j]@.prepared(),
        decreases left,
    {
        left -= 1;
        deck.push(document[left].prepare());
    }
    assert(deck.deep_view() =~= loaded_deck(document.deep_view()));
    deck
}

/// The points, in halves, that can still be won from a deck, or `None` where
/// they do not fit in a `u64`.
pub fn checked_deck_worth(deck: &Vec<Question>) -> (worth: Option<u64>)
    ensures
        deck_worth(deck.deep_view()) <= u64::MAX ==> worth == Some(
            deck_worth(deck.deep_view()) as u64,
        ),
        deck_worth(deck.deep_view()) > u64::MAX ==> worth is None,
{
    let ghost each = deck.deep_view().map_values(|q: QuestionModel| q.worth());
    let mut total: u64 = 0;
    let mut i: usize = 0;
    while i < deck.len()
        invariant
            i <= deck.len(),
            each == deck.deep_view().map_values(|q: QuestionModel| q.worth()),
            total == sum(each.take(i as int)),
        decreases deck.len() - i,
    {
        proof {
            lemma_sum_take(each, i as int);
            lemma_sum_take(each, i + 1);
        }
        match deck[i].checked_worth() {
            Some(worth) => {
                if worth > u64::MAX - total {
                    return None;
                }
                total = total + worth;
            },
            None => {
                return None;
            },
        }
        i += 1;
    }
    proof {
        lemma_sum_take(each, i as int);
    }
    Some(total)
}

} // verus!
