use quizcore::input::{map_key, Key, UserInput};
use quizcore::session::{
    question_is_wf, AnswerPhase, FocusDirection, Question, QuestionOption, QuestionState,
    QuizResult, QuizSession, RepaintRequest, StepOutcome,
};

fn opt(id: &str, content: &str, correct: bool) -> QuestionOption {
    QuestionOption { id: id.to_string(), content: content.to_string(), is_correct: correct }
}

fn four_option_question() -> Question {
    Question {
        id: "q1".to_string(),
        title: "t".to_string(),
        description: "d".to_string(),
        code: "c".to_string(),
        options: vec![
            opt("a", "first", true),
            opt("b", "second", false),
            opt("c", "third", true),
            opt("d", "fourth", false),
        ],
        explanations: Vec::new(),
        key_points: Vec::new(),
    }
}

fn display_index_of(state: &QuestionState, id: &str) -> usize {
    state
        .displayed_options
        .iter()
        .position(|o| o.id == id)
        .expect("option must be displayed")
}

fn sorted_selections(state: &QuestionState) -> Vec<String> {
    let mut v = state.user_selections.clone();
    v.sort();
    v
}

#[test]
fn double_toggle_restores_selections() {
    let q = four_option_question();
    let mut state = QuestionState::new(&q);
    state.toggle_selection(1);
    let before = sorted_selections(&state);
    state.toggle_selection(2);
    state.toggle_selection(2);
    assert_eq!(sorted_selections(&state), before);
}

#[test]
fn toggle_flips_membership() {
    let q = four_option_question();
    let mut state = QuestionState::new(&q);
    let id = state.displayed_options[0].id.clone();
    assert!(!state.is_selected(&id));
    state.toggle_selection(0);
    assert!(state.is_selected(&id));
    state.toggle_selection(0);
    assert!(!state.is_selected(&id));
}

#[test]
fn check_answer_requires_exact_set_match() {
    let q = four_option_question();
    let mut state = QuestionState::new(&q);
    let correct = vec!["a".to_string(), "c".to_string()];

    assert!(!state.check_answer(&correct), "empty selection is incorrect");

    let ia = display_index_of(&state, "a");
    state.toggle_selection(ia);
    assert!(!state.check_answer(&correct), "strict subset is incorrect");

    let ic = display_index_of(&state, "c");
    state.toggle_selection(ic);
    assert!(state.check_answer(&correct), "exact set is correct");

    let ib = display_index_of(&state, "b");
    state.toggle_selection(ib);
    assert!(!state.check_answer(&correct), "strict superset is incorrect");
}

#[test]
fn check_answer_ignores_order() {
    let q = four_option_question();
    let mut state = QuestionState::new(&q);
    let ic = display_index_of(&state, "c");
    state.toggle_selection(ic);
    let ia = display_index_of(&state, "a");
    state.toggle_selection(ia);
    assert!(state.check_answer(&["a".to_string(), "c".to_string()]));
    assert!(state.check_answer(&["c".to_string(), "a".to_string()]));
}

#[test]
fn focus_wraps_in_both_directions() {
    let q = four_option_question();
    let mut state = QuestionState::new(&q);
    assert_eq!(state.current_focus, 0);
    state.move_focus(FocusDirection::Up);
    assert_eq!(state.current_focus, 3, "up from 0 wraps to the last index");
    state.move_focus(FocusDirection::Down);
    assert_eq!(state.current_focus, 0, "down from the last index wraps to 0");
    state.move_focus(FocusDirection::Down);
    assert_eq!(state.current_focus, 1);
    state.move_focus(FocusDirection::Up);
    assert_eq!(state.current_focus, 0);
}

#[test]
fn focus_wraps_with_one_option() {
    let q = Question {
        id: "q".to_string(),
        title: "t".to_string(),
        description: "d".to_string(),
        code: "c".to_string(),
        options: vec![opt("only", "only", true)],
        explanations: Vec::new(),
        key_points: Vec::new(),
    };
    let mut state = QuestionState::new(&q);
    state.move_focus(FocusDirection::Up);
    assert_eq!(state.current_focus, 0);
    state.move_focus(FocusDirection::Down);
    assert_eq!(state.current_focus, 0);
}

#[test]
fn reveal_all_status_maps_every_option() {
    let q = four_option_question();
    let mut state = QuestionState::new(&q);
    state.reveal_all_status(&q);
    assert_eq!(state.phase, AnswerPhase::ShowingHints);
    assert_eq!(state.revealed_status.len(), 4);
    for (id, correct) in &state.revealed_status {
        let expected = id == "a" || id == "c";
        assert_eq!(*correct, expected, "revealed flag for {id}");
    }
}

#[test]
fn escalation_protocol_scenario() {
    // A question with 4 options, 2 marked correct ("a" and "c"). Selecting
    // only {"a"} is judged incorrect and reveals every option's
    // correctness; correcting to {"a","c"} then completes via the
    // final-answer view.
    let q = four_option_question();
    let mut session = QuizSession {
        module: "Options".to_string(),
        current_question: Some(q.clone()),
        question_state: QuestionState::new(&q),
        attempt_count: 0,
        completed: false,
    };
    let ia = display_index_of(&session.question_state, "a");
    session.question_state.toggle_selection(ia);

    let first = session.handle_answer_submission();
    assert_eq!(first, QuizResult::Continue, "partial selection is incorrect");
    assert_eq!(session.question_state.phase, AnswerPhase::ShowingHints);
    assert_eq!(session.question_state.revealed_status.len(), 4);
    for (id, correct) in &session.question_state.revealed_status {
        assert_eq!(*correct, id == "a" || id == "c");
    }
    assert_eq!(session.attempt_count, 1);
    assert!(
        session.question_state.is_selected(&"a".to_string()),
        "failed selections are kept for iterative correction"
    );

    let ic = display_index_of(&session.question_state, "c");
    session.question_state.toggle_selection(ic);
    let second = session.handle_answer_submission();
    assert_eq!(second, QuizResult::Completed);
    assert_eq!(session.question_state.phase, AnswerPhase::FinalAnswer);
    assert_eq!(session.attempt_count, 2);
}

#[test]
fn hint_phase_loops_until_correct() {
    let q = four_option_question();
    let mut session = QuizSession {
        module: "Options".to_string(),
        current_question: Some(q.clone()),
        question_state: QuestionState::new(&q),
        attempt_count: 0,
        completed: false,
    };
    let ib = display_index_of(&session.question_state, "b");
    session.question_state.toggle_selection(ib);
    assert_eq!(session.handle_answer_submission(), QuizResult::Continue);
    assert_eq!(session.question_state.phase, AnswerPhase::ShowingHints);
    assert_eq!(session.handle_answer_submission(), QuizResult::Continue);
    assert_eq!(
        session.question_state.phase,
        AnswerPhase::ShowingHints,
        "an incorrect hinted attempt stays in the hint phase"
    );
}

#[test]
fn final_answer_submit_completes() {
    let q = four_option_question();
    let mut session = QuizSession {
        module: "Options".to_string(),
        current_question: Some(q.clone()),
        question_state: QuestionState::new(&q),
        attempt_count: 0,
        completed: false,
    };
    session.question_state.phase = AnswerPhase::FinalAnswer;
    assert_eq!(session.handle_answer_submission(), QuizResult::Completed);
}

#[test]
fn map_key_covers_every_action() {
    assert_eq!(map_key(Key::Char('q')), UserInput::Quit);
    assert_eq!(map_key(Key::Char('Q')), UserInput::Quit);
    assert_eq!(map_key(Key::CtrlC), UserInput::Quit);
    assert_eq!(map_key(Key::Char(' ')), UserInput::ToggleSelection);
    assert_eq!(map_key(Key::Enter), UserInput::Submit);
    assert_eq!(map_key(Key::Char('j')), UserInput::MoveFocus(FocusDirection::Down));
    assert_eq!(map_key(Key::Char('J')), UserInput::MoveFocus(FocusDirection::Down));
    assert_eq!(map_key(Key::Char('k')), UserInput::MoveFocus(FocusDirection::Up));
    assert_eq!(map_key(Key::Char('K')), UserInput::MoveFocus(FocusDirection::Up));
    assert_eq!(map_key(Key::Up), UserInput::MoveFocus(FocusDirection::Up));
    assert_eq!(map_key(Key::Down), UserInput::MoveFocus(FocusDirection::Down));
    assert_eq!(map_key(Key::PageUp), UserInput::MoveFocus(FocusDirection::Up));
    assert_eq!(map_key(Key::PageDown), UserInput::MoveFocus(FocusDirection::Down));
    assert_eq!(map_key(Key::Resize), UserInput::Resize);
    assert_eq!(map_key(Key::Other), UserInput::Unknown);
    assert_eq!(map_key(Key::Char('?')), UserInput::Unknown);
}

#[test]
fn map_key_letters_are_case_insensitive_indices() {
    assert_eq!(map_key(Key::Char('a')), UserInput::SelectByIndex(1));
    assert_eq!(map_key(Key::Char('A')), UserInput::SelectByIndex(1));
    assert_eq!(map_key(Key::Char('c')), UserInput::SelectByIndex(3));
    assert_eq!(map_key(Key::Char('C')), UserInput::SelectByIndex(3));
    assert_eq!(map_key(Key::Char('z')), UserInput::SelectByIndex(26));
    assert_eq!(map_key(Key::Char('Z')), UserInput::SelectByIndex(26));
}

#[test]
fn dispatch_ignores_unknown_and_out_of_range() {
    let q = four_option_question();
    let mut session = QuizSession {
        module: "Options".to_string(),
        current_question: Some(q.clone()),
        question_state: QuestionState::new(&q),
        attempt_count: 0,
        completed: false,
    };
    let focus_before = session.question_state.current_focus;
    let sel_before = session.question_state.user_selections.len();

    let r = session.dispatch_input(UserInput::Unknown);
    assert_eq!(r, StepOutcome::Repaint(RepaintRequest::Idle));
    let r = session.dispatch_input(UserInput::SelectByIndex(26));
    assert_eq!(r, StepOutcome::Repaint(RepaintRequest::Idle));
    assert_eq!(session.question_state.current_focus, focus_before);
    assert_eq!(session.question_state.user_selections.len(), sel_before);
}

#[test]
fn dispatch_select_by_letter_moves_focus_and_toggles() {
    let q = four_option_question();
    let mut session = QuizSession {
        module: "Options".to_string(),
        current_question: Some(q.clone()),
        question_state: QuestionState::new(&q),
        attempt_count: 0,
        completed: false,
    };
    let r = session.dispatch_input(UserInput::SelectByIndex(3));
    assert!(matches!(r, StepOutcome::Repaint(_)));
    assert_eq!(session.question_state.current_focus, 2);
    let id = session.question_state.displayed_options[2].id.clone();
    assert!(session.question_state.is_selected(&id));
}

#[test]
fn dispatch_quit_leaves_state_untouched() {
    let q = four_option_question();
    let mut session = QuizSession {
        module: "Options".to_string(),
        current_question: Some(q.clone()),
        question_state: QuestionState::new(&q),
        attempt_count: 0,
        completed: false,
    };
    let r = session.dispatch_input(UserInput::Quit);
    assert_eq!(r, StepOutcome::QuitRequested);
    assert_eq!(session.attempt_count, 0);
    assert!(!session.completed);
}

#[test]
fn well_formedness_check_accepts_and_rejects() {
    let good = four_option_question();
    assert!(question_is_wf(&good));

    let mut duplicated = four_option_question();
    duplicated.options[3].id = "a".to_string();
    assert!(!question_is_wf(&duplicated), "duplicated option identities are rejected");

    let mut empty = four_option_question();
    empty.options.clear();
    assert!(!question_is_wf(&empty), "an empty option list is rejected");
}
