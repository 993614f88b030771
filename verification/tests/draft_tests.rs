use flash::draft::{Controller, DraftState, Menu};

fn draft_with_answers(answers: &[&str]) -> DraftState {
    let mut d = DraftState::new();
    for a in answers {
        d.set_pending_answer(String::from(*a));
        d.add_answer();
    }
    d
}

#[test]
fn fresh_draft_is_empty() {
    let d = DraftState::new();
    assert_eq!(d.question, "");
    assert_eq!(d.pending_answer, "");
    assert!(d.answers.is_empty());
    assert_eq!(d.correct_index, None);
    assert_eq!(d.image, None);
}

#[test]
fn add_answer_trims_and_clears_buffer() {
    let mut d = DraftState::new();
    d.set_pending_answer(String::from("  Paris  "));
    d.add_answer();
    assert_eq!(d.answers, vec![String::from("Paris")]);
    assert_eq!(d.pending_answer, "");
}

#[test]
fn add_answer_blank_buffer_is_ignored() {
    let mut d = draft_with_answers(&["a"]);
    d.set_pending_answer(String::from("   \t\n"));
    d.add_answer();
    assert_eq!(d.answers, vec![String::from("a")]);
    assert_eq!(d.pending_answer, "   \t\n");
}

#[test]
fn add_answer_empty_buffer_is_ignored() {
    let mut d = DraftState::new();
    d.add_answer();
    assert!(d.answers.is_empty());
}

#[test]
fn answer_count_never_exceeds_four() {
    let mut d = draft_with_answers(&["a", "b", "c", "d"]);
    assert_eq!(d.answers.len(), 4);
    d.set_pending_answer(String::from("e"));
    d.add_answer();
    assert_eq!(d.answers.len(), 4);
    assert_eq!(d.pending_answer, "e");
}

#[test]
fn long_mixed_sequence_keeps_invariant() {
    let mut d = DraftState::new();
    for round in 0..6 {
        d.set_pending_answer(format!("answer {round}"));
        d.add_answer();
        d.select_correct(d.answers.len() - 1);
        assert!(d.answers.len() <= 4);
        if let Some(c) = d.correct_index {
            assert!(c < d.answers.len());
        }
    }
    for idx in [0usize, 5, 1, 0] {
        d.remove_answer(idx);
        assert!(d.answers.len() >= 2);
        if let Some(c) = d.correct_index {
            assert!(c < d.answers.len());
        }
    }
}

#[test]
fn remove_answer_of_correct_resets_mark() {
    let mut d = draft_with_answers(&["a", "b", "c"]);
    d.select_correct(1);
    d.remove_answer(1);
    assert_eq!(d.answers, vec![String::from("a"), String::from("c")]);
    assert_eq!(d.correct_index, None);
}

#[test]
fn remove_answer_before_correct_shifts_mark() {
    let mut d = draft_with_answers(&["a", "b", "c"]);
    d.select_correct(2);
    d.remove_answer(0);
    assert_eq!(d.answers, vec![String::from("b"), String::from("c")]);
    assert_eq!(d.correct_index, Some(1));
    assert_eq!(d.answers[1], "c");
}

#[test]
fn remove_answer_after_correct_keeps_mark() {
    let mut d = draft_with_answers(&["a", "b", "c"]);
    d.select_correct(0);
    d.remove_answer(2);
    assert_eq!(d.answers, vec![String::from("a"), String::from("b")]);
    assert_eq!(d.correct_index, Some(0));
}

#[test]
fn remove_answer_at_floor_of_two_is_rejected() {
    let mut d = draft_with_answers(&["a", "b"]);
    d.select_correct(0);
    d.remove_answer(0);
    assert_eq!(d.answers, vec![String::from("a"), String::from("b")]);
    assert_eq!(d.correct_index, Some(0));
}

#[test]
fn remove_answer_out_of_range_is_rejected() {
    let mut d = draft_with_answers(&["a", "b", "c"]);
    d.remove_answer(3);
    assert_eq!(d.answers.len(), 3);
}

#[test]
fn select_correct_out_of_range_is_rejected() {
    let mut d = draft_with_answers(&["a", "b"]);
    d.select_correct(2);
    assert_eq!(d.correct_index, None);
    d.select_correct(1);
    assert_eq!(d.correct_index, Some(1));
}

#[test]
fn submittable_needs_question_answers_and_mark() {
    let mut d = DraftState::new();
    assert!(!d.is_submittable());
    d.set_question(String::from("2+2?"));
    assert!(!d.is_submittable());
    d.set_pending_answer(String::from("3"));
    d.add_answer();
    d.set_pending_answer(String::from("4"));
    d.add_answer();
    assert!(!d.is_submittable());
    d.select_correct(1);
    assert!(d.is_submittable());
    d.set_question(String::from("   "));
    assert!(!d.is_submittable());
    d.set_question(String::from("q"));
    assert!(d.is_submittable());
}

#[test]
fn submittable_false_with_one_answer() {
    let mut d = draft_with_answers(&["only"]);
    d.set_question(String::from("q"));
    d.select_correct(0);
    assert!(!d.is_submittable());
}

#[test]
fn submit_snapshots_draft_and_keeps_it() {
    let mut d = draft_with_answers(&["3", "4"]);
    d.set_question(String::from("2+2?"));
    d.select_correct(1);
    d.set_image(Some(String::from("pic.png")));
    let card = d.submit();
    assert_eq!(card.question(), "2+2?");
    assert_eq!(card.answers(), &vec![String::from("3"), String::from("4")]);
    assert_eq!(card.correct_index(), 1);
    assert_eq!(card.image(), &Some(String::from("pic.png")));
    assert_eq!(d.question, "2+2?");
    assert_eq!(d.answers.len(), 2);
}

#[test]
fn reset_clears_everything() {
    let mut d = draft_with_answers(&["a", "b"]);
    d.set_question(String::from("q"));
    d.select_correct(0);
    d.set_image(Some(String::from("i")));
    d.reset();
    assert_eq!(d.question, "");
    assert_eq!(d.pending_answer, "");
    assert!(d.answers.is_empty());
    assert_eq!(d.correct_index, None);
    assert_eq!(d.image, None);
}

#[test]
fn menu_starts_on_main_and_transitions() {
    let mut c = Controller::new();
    assert_eq!(c.menu, Menu::Main);
    c.start_create();
    assert_eq!(c.menu, Menu::Authoring);
    c.start_create();
    assert_eq!(c.menu, Menu::Authoring);
    c.draft.set_question(String::from("q"));
    c.go_back();
    assert_eq!(c.menu, Menu::Main);
    assert_eq!(c.draft.question, "");
}

#[test]
fn submit_and_close_returns_card_and_resets() {
    let mut c = Controller::new();
    c.start_create();
    c.draft.set_question(String::from("2+2?"));
    c.draft.set_pending_answer(String::from("3"));
    c.draft.add_answer();
    c.draft.set_pending_answer(String::from("4"));
    c.draft.add_answer();
    c.draft.select_correct(1);
    assert!(c.draft.is_submittable());
    let card = c.submit_and_close();
    assert_eq!(card.question(), "2+2?");
    assert_eq!(c.menu, Menu::Main);
    assert_eq!(c.draft.question, "");
}
