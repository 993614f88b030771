//! The draft controller: transient state for authoring one flashcard,
//! with validation gating, and the thin menu state machine around it.

use vstd::prelude::*;

use crate::card::{seq_views, opt_view, CardModel, Flashcard};
use crate::text::{trim, trim_spec};

verus! {

/// Transient authoring state for one flashcard. The answer list holds
/// at most four entries, and the correct-answer mark, when set, always
/// refers to one of them.
pub struct DraftState {
    /// The question text; may be empty while editing.
    pub question: String,
    /// Scratch buffer for the next answer to add.
    pub pending_answer: String,
    /// The candidate answers gathered so far.
    pub answers: Vec<String>,
    /// The position marked correct, if any.
    pub correct_index: Option<usize>,
    /// An optional image path, stored but never interpreted.
    pub image: Option<String>,
}

/// All draft fields hold their initial empty values.
pub open spec fn is_initial_draft(d: DraftState) -> bool {
    &&& d.question@ == Seq::<char>::empty()
    &&& d.pending_answer@ == Seq::<char>::empty()
    &&& d.answers@ == Seq::<String>::empty()
    &&& d.correct_index is None
    &&& d.image is None
}

impl DraftState {
    /// The draft invariant: never more than four answers, and the
    /// correct mark, when set, indexes a live answer.
    pub open spec fn wf(self) -> bool {
        &&& self.answers@.len() <= 4
        &&& (self.correct_index matches Some(c) ==> c < self.answers@.len())
    }

    /// A draft may be submitted when the trimmed question is non-empty,
    /// at least two answers exist, and one of them is marked correct.
    pub open spec fn submittable(self) -> bool {
        &&& trim_spec(self.question@).len() > 0
        &&& self.answers@.len() >= 2
        &&& self.correct_index is Some
    }

    /// A fresh, empty draft.
    pub fn new() -> (r: DraftState)
        ensures
            is_initial_draft(r),
            r.wf(),
    {
        DraftState {
            question: String::new(),
            pending_answer: String::new(),
            answers: Vec::new(),
            correct_index: None,
            image: None,
        }
    }

    /// Returns every field to its initial empty value.
    pub fn reset(&mut self)
        ensures
            is_initial_draft(*final(self)),
            final(self).wf(),
    {
        self.question = String::new();
        self.pending_answer = String::new();
        self.answers = Vec::new();
        self.correct_index = None;
        self.image = None;
    }

    /// Overwrites the question text; no validation is applied.
    pub fn set_question(&mut self, q: String)
        ensures
            final(self).question == q,
            final(self).pending_answer == old(self).pending_answer,
            final(self).answers == old(self).answers,
            final(self).correct_index == old(self).correct_index,
            final(self).image == old(self).image,
            old(self).wf() ==> final(self).wf(),
    {
        self.question = q;
    }

    /// Overwrites the scratch buffer for the next answer.
    pub fn set_pending_answer(&mut self, a: String)
        ensures
            final(self).pending_answer == a,
            final(self).question == old(self).question,
            final(self).answers == old(self).answers,
            final(self).correct_index == old(self).correct_index,
            final(self).image == old(self).image,
            old(self).wf() ==> final(self).wf(),
    {
        self.pending_answer = a;
    }

    /// Overwrites the optional image path.
    pub fn set_image(&mut self, img: Option<String>)
        ensures
            final(self).image == img,
            final(self).question == old(self).question,
            final(self).pending_answer == old(self).pending_answer,
            final(self).answers == old(self).answers,
            final(self).correct_index == old(self).correct_index,
            old(self).wf() ==> final(self).wf(),
    {
        self.image = img;
    }

    /// Appends the trimmed scratch buffer to the answers and clears the
    /// buffer. A call with a blank buffer or a full answer list is
    /// silently ignored and leaves the draft unchanged.
    pub fn add_answer(&mut self)
        ensures
            ({
                let t = trim_spec(old(self).pending_answer@);
                if t.len() > 0 && old(self).answers@.len() < 4 {
                    &&& final(self).answers@.len() == old(self).answers@.len() + 1
                    &&& final(self).answers@.drop_last() == old(self).answers@
                    &&& final(self).answers@.last()@ == t
                    &&& final(self).pending_answer@ == Seq::<char>::empty()
                    &&& final(self).question == old(self).question
                    &&& final(self).correct_index == old(self).correct_index
                    &&& final(self).image == old(self).image
                } else {
                    *final(self) == *old(self)
                }
            }),
            old(self).wf() ==> final(self).wf(),
    {
        let t = trim(self.pending_answer.as_str());
        if t.as_str().unicode_len() > 0 && self.answers.len() < 4 {
            self.answers.push(t);
            self.pending_answer = String::new();
            proof {
                assert(self.answers@.drop_last() =~= old(self).answers@);
            }
        }
    }

    /// Deletes the answer at `idx`, keeping the correct mark pointed at
    /// the same answer text (or clearing it when that answer was the
    /// one removed). A call with an out-of-range index, or while only
    /// two answers remain, is silently ignored.
    pub fn remove_answer(&mut self, idx: usize)
        ensures
            ({
                if idx < old(self).answers@.len() && old(self).answers@.len() > 2 {
                    &&& final(self).answers@ == old(self).answers@.remove(idx as int)
                    &&& final(self).question == old(self).question
                    &&& final(self).pending_answer == old(self).pending_answer
                    &&& final(self).image == old(self).image
                    &&& final(self).correct_index == (match old(self).correct_index {
                        Some(c) => if c == idx {
                            None
                        } else if c > idx {
                            Some((c - 1) as usize)
                        } else {
                            Some(c)
                        },
                        None => None::<usize>,
                    })
                } else {
                    *final(self) == *old(self)
                }
            }),
            // Removing an answer before the correct one shifts the mark
            // down by one and preserves the text it refers to.
            (match old(self).correct_index {
                Some(c) => (old(self).wf() && idx < old(self).answers@.len() && old(
                    self,
                ).answers@.len() > 2 && c > idx) ==> {
                    &&& final(self).correct_index == Some((c - 1) as usize)
                    &&& final(self).answers@[c - 1]@ == old(self).answers@[c as int]@
                },
                None => true,
            }),
            old(self).wf() ==> final(self).wf(),
    {
        if idx < self.answers.len() && self.answers.len() > 2 {
            self.answers.remove(idx);
            match self.correct_index {
                Some(c) => {
                    if c == idx {
                        self.correct_index = None;
                    } else if c > idx {
                        self.correct_index = Some(c - 1);
                    }
                },
                None => {},
            }
        }
    }

    /// Marks the answer at `idx` correct. A call with an out-of-range
    /// index is silently ignored.
    pub fn select_correct(&mut self, idx: usize)
        ensures
            ({
                if idx < old(self).answers@.len() {
                    &&& final(self).correct_index == Some(idx)
                    &&& final(self).question == old(self).question
                    &&& final(self).pending_answer == old(self).pending_answer
                    &&& final(self).answers == old(self).answers
                    &&& final(self).image == old(self).image
                } else {
                    *final(self) == *old(self)
                }
            }),
            old(self).wf() ==> final(self).wf(),
    {
        if idx < self.answers.len() {
            self.correct_index = Some(idx);
        }
    }

    /// Whether the draft may be submitted; the single source of truth
    /// for enabling the save action.
    pub fn is_submittable(&self) -> (b: bool)
        ensures
            b == self.submittable(),
    {
        let t = trim(self.question.as_str());
        t.as_str().unicode_len() > 0 && self.answers.len() >= 2 && self.correct_index.is_some()
    }

    /// The card a submittable draft describes.
    pub open spec fn card_model(self) -> CardModel {
        CardModel {
            question: self.question@,
            answers: seq_views(self.answers@),
            correct_index: (match self.correct_index {
                Some(c) => c as int,
                None => -1,
            }),
            image: opt_view(self.image),
        }
    }

    /// Builds an immutable flashcard snapshot of the draft. The draft
    /// itself is left untouched; clearing it is a separate `reset`.
    pub fn submit(&self) -> (r: Flashcard)
        requires
            self.wf(),
            self.submittable(),
        ensures
            r@ == self.card_model(),
            r@.wf(),
    {
        let ci: usize = match self.correct_index {
            Some(c) => c,
            None => 0,
        };
        let answers = clone_strings(&self.answers);
        let image = match &self.image {
            Some(s) => Some(s.clone()),
            None => None,
        };
        Flashcard::new(self.question.clone(), answers, ci, image).unwrap()
    }
}

/// An elementwise copy of a vector of strings.
pub fn clone_strings(v: &Vec<String>) -> (r: Vec<String>)
    ensures
        r@ == v@,
{
    let mut r: Vec<String> = Vec::new();
    let mut i: usize = 0;
    while i < v.len()
        invariant
            0 <= i <= v.len(),
            r@ == v@.subrange(0, i as int),
        decreases v.len() - i,
    {
        r.push(v[i].clone());
        proof {
            assert(v@.subrange(0, i + 1 as int) =~= v@.subrange(0, i as int).push(v@[i as int]));
        }
        i = i + 1;
    }
    proof {
        assert(v@.subrange(0, v@.len() as int) =~= v@);
    }
    r
}

/// The two screens of the application.
#[derive(Clone, Copy, Debug, PartialEq, Eq, Structural)]
pub enum Menu {
    Main,
    Authoring,
}

/// The menu-level state machine: a main screen and an authoring screen,
/// the latter owning the draft. Leaving the authoring screen always
/// resets the draft.
pub struct Controller {
    pub menu: Menu,
    pub draft: DraftState,
}

impl Controller {
    /// Starts on the main screen with an empty draft.
    pub fn new() -> (r: Controller)
        ensures
            r.menu == Menu::Main,
            is_initial_draft(r.draft),
            r.draft.wf(),
    {
        Controller { menu: Menu::Main, draft: DraftState::new() }
    }

    /// Opens the authoring screen from the main screen; anywhere else
    /// the call is ignored.
    pub fn start_create(&mut self)
        ensures
            old(self).menu == Menu::Main ==> final(self).menu == Menu::Authoring,
            old(self).menu != Menu::Main ==> final(self).menu == old(self).menu,
            final(self).draft == old(self).draft,
    {
        match self.menu {
            Menu::Main => {
                self.menu = Menu::Authoring;
            },
            Menu::Authoring => {},
        }
    }

    /// Returns to the main screen, discarding the draft.
    pub fn go_back(&mut self)
        ensures
            final(self).menu == Menu::Main,
            is_initial_draft(final(self).draft),
            final(self).draft.wf(),
    {
        self.menu = Menu::Main;
        self.draft.reset();
    }

    /// Builds the card the draft describes, then returns to the main
    /// screen with a fresh draft.
    pub fn submit_and_close(&mut self) -> (r: Flashcard)
        requires
            old(self).draft.wf(),
            old(self).draft.submittable(),
        ensures
            r@ == old(self).draft.card_model(),
            r@.wf(),
            final(self).menu == Menu::Main,
            is_initial_draft(final(self).draft),
            final(self).draft.wf(),
    {
        let card = self.draft.submit();
        self.menu = Menu::Main;
        self.draft.reset();
        card
    }
}

} // verus!
