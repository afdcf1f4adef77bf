use quizcore::bank::QuestionBank;
use quizcore::codec::{decode_bank, encode_bank};
use quizcore::input::UserInput;
use quizcore::markdown::{render_events, render_markdown, MdEvent};
use quizcore::render::QuizUI;
use quizcore::session::{
    AnswerPhase, Explanation, Question, QuestionOption, QuestionState, QuizSession,
    RepaintRequest, StepOutcome,
};

fn opt(id: &str, content: &str, correct: bool) -> QuestionOption {
    QuestionOption { id: id.to_string(), content: content.to_string(), is_correct: correct }
}

fn question_with_options(n: usize) -> Question {
    let ids = ["a", "b", "c", "d", "e", "f", "g", "h"];
    Question {
        id: "q".to_string(),
        title: "t".to_string(),
        description: "d".to_string(),
        code: "c".to_string(),
        options: (0..n).map(|i| opt(ids[i], ids[i], i == 0)).collect(),
        explanations: vec![Explanation {
            option_id: "a".to_string(),
            text: "why a".to_string(),
        }],
        key_points: Vec::new(),
    }
}

#[test]
fn cramped_terminal_selects_bottom_anchored_coordinates() {
    // With 4 options and 6 footer lines the content needs 10 rows; a
    // terminal leaving only 5 rows under the cursor must switch to
    // bottom-anchored offsets, and those resolve relative to the current
    // bottom edge.
    let q = question_with_options(4);
    let mut state = QuestionState::new(&q);
    QuizUI::plan_options_layout(&mut state, 20, 15);
    assert!(state.scroll_mode);
    assert_eq!(state.option_positions, vec![10, 9, 8, 7]);
    assert_eq!(QuizUI::resolve_option_row(&state, 0, 20), Some(10));
    assert_eq!(QuizUI::resolve_option_row(&state, 3, 20), Some(13));
    // After the screen "scrolled", the same offsets track the new bottom.
    assert_eq!(QuizUI::resolve_option_row(&state, 0, 30), Some(20));
}

#[test]
fn resize_invalidates_cache_and_ample_height_goes_top_anchored() {
    let q = question_with_options(4);
    let mut session = QuizSession {
        module: "Options".to_string(),
        current_question: Some(q.clone()),
        question_state: QuestionState::new(&q),
        attempt_count: 0,
        completed: false,
    };
    QuizUI::plan_options_layout(&mut session.question_state, 20, 15);
    assert!(session.question_state.scroll_mode);

    // A resize clears every cached position and forces a full repaint.
    let r = session.dispatch_input(UserInput::Resize);
    assert_eq!(r, StepOutcome::Repaint(RepaintRequest::Full));
    assert!(session.question_state.option_positions.is_empty());
    assert!(session.question_state.options_start_line.is_none());

    // The next full repaint re-measures: ample space means top-anchored
    // coordinates, recorded per printed line.
    QuizUI::plan_options_layout(&mut session.question_state, 40, 5);
    assert!(!session.question_state.scroll_mode);
    assert!(session.question_state.option_positions.is_empty());
    for row in [7u16, 8, 9, 10] {
        QuizUI::record_option_row(&mut session.question_state, row);
    }
    assert_eq!(QuizUI::resolve_option_row(&session.question_state, 2, 40), Some(9));
    assert_eq!(QuizUI::resolve_option_row(&session.question_state, 9, 40), None);
}

#[test]
fn option_line_shows_focus_letter_checkbox_and_content() {
    let q = question_with_options(2);
    let mut state = QuestionState::new(&q);
    state.current_focus = 0;
    let first_id = state.displayed_options[0].id.clone();
    let first_content = state.displayed_options[0].content.clone();
    state.toggle_selection(0);
    let line = QuizUI::render_option_line(&state, 0);
    let expected = format!(
        "\u{1b}[93m\u{25ba} \u{1b}[0m\u{1b}[94mA. \u{1b}[0m\u{1b}[92m[\u{2713}] \u{1b}[0m\u{1b}[97m{first_content}\u{1b}[0m"
    );
    assert_eq!(line, expected);
    assert!(state.is_selected(&first_id));

    let second_content = state.displayed_options[1].content.clone();
    let line2 = QuizUI::render_option_line(&state, 1);
    let expected2 = format!("  \u{1b}[94mB. \u{1b}[0m[ ] {second_content}\u{1b}[0m");
    assert_eq!(line2, expected2);
}

#[test]
fn option_line_adds_glyphs_once_hints_show() {
    let q = question_with_options(2);
    let mut state = QuestionState::new(&q);
    state.reveal_all_status(&q);
    assert_eq!(state.phase, AnswerPhase::ShowingHints);
    for i in 0..2 {
        let line = QuizUI::render_option_line(&state, i);
        let correct = state.displayed_options[i].is_correct;
        let glyph = if correct { "\u{2705}" } else { "\u{274c}" };
        assert!(line.ends_with(&format!(" {glyph}")), "line {i} carries its glyph");
    }
}

#[test]
fn option_letters_follow_display_positions() {
    let q = question_with_options(4);
    let state = QuestionState::new(&q);
    for (i, o) in state.displayed_options.iter().enumerate() {
        let letter = QuizUI::get_option_letter(&state, &o.id);
        assert_eq!(letter as u8, b'A' + i as u8);
    }
    assert_eq!(QuizUI::get_option_letter(&state, &"missing".to_string()), '?');
}

#[test]
fn explanation_lookup_finds_recorded_text() {
    let q = question_with_options(3);
    assert_eq!(
        QuizUI::explanation_for(&q, &"a".to_string()).map(|s| s.as_str()),
        Some("why a")
    );
    assert_eq!(QuizUI::explanation_for(&q, &"b".to_string()), None);
}

#[test]
fn markdown_emphasis_becomes_italic_escapes() {
    assert_eq!(render_markdown("*hi*"), "\u{1b}[3mhi\u{1b}[23m");
    assert_eq!(render_markdown("**hi**"), "\u{1b}[1mhi\u{1b}[22m");
}

#[test]
fn markdown_event_fold_is_exact() {
    let events = vec![
        MdEvent::ListStart,
        MdEvent::ItemStart,
        MdEvent::Text("first".to_string()),
        MdEvent::ItemStart,
        MdEvent::Text("second".to_string()),
        MdEvent::ListEnd,
    ];
    assert_eq!(render_events(&events), "\n\n\u{2022} first\n\u{2022} second\n");

    let code = vec![
        MdEvent::CodeBlockStart,
        MdEvent::Text("let x = 1;".to_string()),
        MdEvent::CodeBlockEnd,
    ];
    assert_eq!(
        render_events(&code),
        "  \u{1b}[90mlet x = 1;\u{1b}[0m\n"
    );
}

fn sample_bank() -> QuestionBank {
    QuestionBank {
        module: "Options".to_string(),
        questions: vec![Question {
            id: "q-1".to_string(),
            title: "A \"quoted\" title".to_string(),
            description: "line one\nline two".to_string(),
            code: "fn f() -> bool { true }".to_string(),
            options: vec![opt("a", "first, with comma", true), opt("b", "back\\slash", false)],
            explanations: vec![
                Explanation { option_id: "a".to_string(), text: "because".to_string() },
                Explanation { option_id: "b".to_string(), text: "not: this".to_string() },
            ],
            key_points: vec!["point one".to_string(), "point two".to_string()],
        }],
    }
}

#[test]
fn bank_round_trip_is_lossless() {
    let bank = sample_bank();
    let text = encode_bank(&bank);
    let back = decode_bank(&text).expect("a canonical document parses");
    assert_eq!(back.module, bank.module);
    assert_eq!(back.questions.len(), bank.questions.len());
    let (a, b) = (&back.questions[0], &bank.questions[0]);
    assert_eq!(a.id, b.id);
    assert_eq!(a.title, b.title);
    assert_eq!(a.description, b.description);
    assert_eq!(a.code, b.code);
    assert_eq!(a.options.len(), b.options.len());
    for (x, y) in a.options.iter().zip(b.options.iter()) {
        assert_eq!(x.id, y.id);
        assert_eq!(x.content, y.content);
        assert_eq!(x.is_correct, y.is_correct);
    }
    assert_eq!(a.explanations.len(), b.explanations.len());
    for (x, y) in a.explanations.iter().zip(b.explanations.iter()) {
        assert_eq!(x.option_id, y.option_id);
        assert_eq!(x.text, y.text);
    }
    assert_eq!(a.key_points, b.key_points);
}

#[test]
fn empty_bank_encodes_compactly() {
    let bank = QuestionBank { module: "M".to_string(), questions: Vec::new() };
    let text = encode_bank(&bank);
    assert_eq!(text, "{\"module\":\"M\",\"questions\":[]}");
    let back = decode_bank(&text).expect("the empty bank parses");
    assert_eq!(back.module, "M");
    assert!(back.questions.is_empty());
}

#[test]
fn malformed_documents_are_rejected() {
    assert!(decode_bank("").is_none());
    assert!(decode_bank("{\"module\":\"M\"}").is_none());
    assert!(decode_bank("{\"module\":\"M\",\"questions\":[]} trailing").is_none());
    assert!(decode_bank("{\"module\":\"M\",\"questions\":[").is_none());
}
