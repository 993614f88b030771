//! The persisted flashcard record and its mathematical model.

use vstd::prelude::*;

verus! {

/// The mathematical model of a flashcard: its question text, its
/// candidate answers, the index of the correct answer, and an optional
/// image path.
pub struct CardModel {
    pub question: Seq<char>,
    pub answers: Seq<Seq<char>>,
    pub correct_index: int,
    pub image: Option<Seq<char>>,
}

impl CardModel {
    /// A well-formed card has between 2 and 4 answers and marks one of
    /// them correct.
    pub open spec fn wf(self) -> bool {
        &&& 2 <= self.answers.len() <= 4
        &&& 0 <= self.correct_index < self.answers.len()
    }
}

/// The views of a sequence of strings.
pub open spec fn seq_views(v: Seq<String>) -> Seq<Seq<char>> {
    v.map_values(|s: String| s@)
}

/// The view of an optional string.
pub open spec fn opt_view(v: Option<String>) -> Option<Seq<char>> {
    match v {
        Some(s) => Some(s@),
        None => None,
    }
}

/// A single multiple-choice flashcard. Immutable once constructed; the
/// correct-answer index always refers to one of the answers.
#[derive(Clone, Debug, PartialEq, Eq)]
pub struct Flashcard {
    question: String,
    answers: Vec<String>,
    correct_index: usize,
    image: Option<String>,
}

impl View for Flashcard {
    type V = CardModel;

    closed spec fn view(&self) -> CardModel {
        CardModel {
            question: self.question@,
            answers: seq_views(self.answers@),
            correct_index: self.correct_index as int,
            image: opt_view(self.image),
        }
    }
}

impl Flashcard {
    /// Builds a card, rejecting any combination in which the answer
    /// count is outside 2..=4 or the correct index is out of range.
    pub fn new(question: String, answers: Vec<String>, correct_index: usize, image: Option<
        String,
    >) -> (r: Option<Flashcard>)
        ensures
            r is Some <==> 2 <= answers@.len() <= 4 && correct_index < answers@.len(),
            r matches Some(c) ==> c@ == (CardModel {
                question: question@,
                answers: seq_views(answers@),
                correct_index: correct_index as int,
                image: opt_view(image),
            }) && c@.wf(),
    {
        if 2 <= answers.len() && answers.len() <= 4 && correct_index < answers.len() {
            proof {
                assert(seq_views(answers@).len() == answers@.len());
            }
            Some(
                Flashcard {
                    question,
                    answers,
                    correct_index,
                    image,
                },
            )
        } else {
            None
        }
    }

    /// The question text.
    pub fn question(&self) -> (r: &String)
        ensures
            r@ == self@.question,
    {
        &self.question
    }

    /// The candidate answers.
    pub fn answers(&self) -> (r: &Vec<String>)
        ensures
            seq_views(r@) == self@.answers,
            r@.len() == self@.answers.len(),
            forall|i: int| 0 <= i < r@.len() ==> r@[i]@ == self@.answers[i],
    {
        proof {
            assert(forall|i: int|
                0 <= i < self.answers@.len() ==> seq_views(self.answers@)[i]
                    == #[trigger] self.answers@[i]@);
        }
        &self.answers
    }

    /// The index of the correct answer.
    pub fn correct_index(&self) -> (r: usize)
        ensures
            r as int == self@.correct_index,
    {
        self.correct_index
    }

    /// The optional image path.
    pub fn image(&self) -> (r: &Option<String>)
        ensures
            opt_view(*r) == self@.image,
    {
        &self.image
    }
}

/// The models of a sequence of flashcards.
pub open spec fn models(v: Seq<Flashcard>) -> Seq<CardModel> {
    v.map_values(|c: Flashcard| c@)
}

/// Every card in the sequence is well-formed.
pub open spec fn models_wf(ms: Seq<CardModel>) -> bool {
    forall|i: int| 0 <= i < ms.len() ==> (#[trigger] ms[i]).wf()
}

} // verus!
