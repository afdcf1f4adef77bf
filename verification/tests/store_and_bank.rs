use quizcore::bank::{bank_filename, default_questions, questions_after_load, QuestionBank};
use quizcore::grouping::{group_by_key, word_freq, Item};
use quizcore::session::{Question, QuestionOption};
use quizcore::store::{extract_module_key, QuizEngine};

fn opt(id: &str, correct: bool) -> QuestionOption {
    QuestionOption { id: id.to_string(), content: format!("option {id}"), is_correct: correct }
}

fn small_question(qid: &str) -> Question {
    Question {
        id: qid.to_string(),
        title: "title".to_string(),
        description: "description".to_string(),
        code: "code".to_string(),
        options: vec![opt("a", true), opt("b", false)],
        explanations: Vec::new(),
        key_points: Vec::new(),
    }
}

#[test]
fn empty_topic_yields_no_question() {
    // A topic with zero loaded questions returns no question and raises no
    // error.
    let engine = QuizEngine::new();
    assert!(engine.get_random_question("Options").is_none());
    assert!(engine.start_quiz_session("Options").is_none());
}

#[test]
fn unknown_topic_is_an_empty_result() {
    let mut engine = QuizEngine::new();
    engine.add_question_for_module("Options", small_question("q1"));
    assert!(engine.get_random_question("Errors").is_none());
}

#[test]
fn added_question_comes_back() {
    let mut engine = QuizEngine::new();
    engine.add_question_for_module("Options", small_question("q1"));
    let q = engine.get_random_question("Options").expect("one question is loaded");
    assert_eq!(q.id, "q1");
    assert_eq!(q.options.len(), 2);
}

#[test]
fn random_pick_is_one_of_the_stored_questions() {
    let mut engine = QuizEngine::new();
    engine.add_question_for_module("Options", small_question("q1"));
    engine.add_question_for_module("Options", small_question("q2"));
    for _ in 0..20 {
        let q = engine.get_random_question("Options").expect("topic is non-empty");
        assert!(q.id == "q1" || q.id == "q2");
    }
}

#[test]
fn shuffle_preserves_identity_set() {
    // The displayed order is a permutation: the identity set never
    // changes, however the options land on screen.
    let mut engine = QuizEngine::new();
    let q = Question {
        id: "q".to_string(),
        title: "t".to_string(),
        description: "d".to_string(),
        code: "c".to_string(),
        options: vec![
            opt("a", true),
            opt("b", false),
            opt("c", true),
            opt("d", false),
            opt("e", false),
        ],
        explanations: Vec::new(),
        key_points: Vec::new(),
    };
    engine.add_question_for_module("Options", q);
    for _ in 0..10 {
        let session = engine.start_quiz_session("Options").expect("topic is non-empty");
        let mut displayed: Vec<String> = session
            .question_state
            .displayed_options
            .iter()
            .map(|o| o.id.clone())
            .collect();
        displayed.sort();
        assert_eq!(displayed, vec!["a", "b", "c", "d", "e"]);
        let question = session.current_question.expect("session carries its question");
        let mut held: Vec<String> = question.options.iter().map(|o| o.id.clone()).collect();
        held.sort();
        assert_eq!(held, vec!["a", "b", "c", "d", "e"]);
    }
}

#[test]
fn fresh_session_starts_clean() {
    let mut engine = QuizEngine::new();
    engine.add_question_for_module("Options", small_question("q1"));
    let session = engine.start_quiz_session("Options").expect("topic is non-empty");
    assert_eq!(session.module, "Options");
    assert!(!session.completed);
    assert_eq!(session.attempt_count, 0);
    assert!(session.question_state.user_selections.is_empty());
    assert_eq!(session.question_state.current_focus, 0);
}

#[test]
fn module_key_strips_numbering_and_glyphs() {
    assert_eq!(extract_module_key("01.    \u{1f4d6} Options"), "Options");
    assert_eq!(extract_module_key("02-03. \u{26a1} Async"), "Async");
    assert_eq!(extract_module_key("Options"), "Options");
    assert_eq!(extract_module_key("Rusty Errors"), "Errors");
}

#[test]
fn module_key_keeps_accented_word_tokens() {
    // Only the decorative glyphs are stripped: a word token with accented
    // letters is an ordinary word and survives as the last token.
    assert_eq!(extract_module_key("ab \u{e9}"), "\u{e9}");
    assert_eq!(extract_module_key("01. \u{1f3af} caf\u{e9}"), "caf\u{e9}");
}

#[test]
fn module_key_falls_back_to_the_whole_label() {
    assert_eq!(extract_module_key("01. \u{1f4d6}"), "01. \u{1f4d6}");
    assert_eq!(extract_module_key(""), "");
}

#[test]
fn session_lookup_uses_the_extracted_key() {
    let mut engine = QuizEngine::new();
    engine.add_question_for_module("Options", small_question("q1"));
    let session = engine.start_quiz_session("01.    \u{1f4d6} Options");
    assert!(session.is_some(), "a decorated label resolves to its topic");
}

#[test]
fn bank_filenames_cover_the_shipped_topics() {
    assert_eq!(bank_filename("Options").as_deref(), Some("options.json"));
    assert_eq!(bank_filename("Async").as_deref(), Some("async.json"));
    assert_eq!(bank_filename("Errors").as_deref(), Some("errors.json"));
    assert_eq!(bank_filename("Iterators").as_deref(), Some("iterators.json"));
    assert_eq!(bank_filename("Concurrency").as_deref(), Some("concurrency.json"));
    assert_eq!(bank_filename("Logging").as_deref(), Some("logging.json"));
    assert_eq!(bank_filename("Pattern").as_deref(), Some("pattern_matching.json"));
    assert_eq!(bank_filename("I/O").as_deref(), Some("io_boundaries.json"));
    assert_eq!(bank_filename("Nonsense"), None);
}

#[test]
fn default_question_set_is_well_formed() {
    let qs = default_questions();
    assert_eq!(qs.len(), 1);
    let q = &qs[0];
    assert_eq!(q.options.len(), 6);
    let correct: Vec<&str> = q
        .options
        .iter()
        .filter(|o| o.is_correct)
        .map(|o| o.id.as_str())
        .collect();
    assert_eq!(correct, vec!["opt_a", "opt_b", "opt_e"]);
    let mut ids: Vec<&str> = q.options.iter().map(|o| o.id.as_str()).collect();
    ids.sort();
    ids.dedup();
    assert_eq!(ids.len(), 6, "option identities are distinct");
    assert_eq!(q.explanations.len(), 6, "every option carries an explanation");
    for (o, e) in q.options.iter().zip(q.explanations.iter()) {
        assert_eq!(o.id, e.option_id);
    }
    assert_eq!(q.key_points.len(), 3);
}

#[test]
fn load_outcome_keeps_parsed_questions_and_falls_back() {
    let parsed = QuestionBank {
        module: "Options".to_string(),
        questions: vec![small_question("from_file")],
    };
    let kept = questions_after_load("Options", Some(parsed));
    assert_eq!(kept.len(), 1);
    assert_eq!(kept[0].id, "from_file");

    let fallback = questions_after_load("Options", None);
    assert_eq!(fallback.len(), 1);
    assert_eq!(fallback[0].id, "options_001");

    let empty = questions_after_load("Errors", None);
    assert!(empty.is_empty(), "other topics degrade to no content");
}

#[test]
fn word_freq_counts_every_word() {
    let words: Vec<String> = ["rust", "is", "great", "rust", "is", "fast"]
        .iter()
        .map(|w| w.to_string())
        .collect();
    let mut freq = word_freq(&words);
    freq.sort();
    assert_eq!(
        freq,
        vec![
            ("fast".to_string(), 1),
            ("great".to_string(), 1),
            ("is".to_string(), 2),
            ("rust".to_string(), 2),
        ]
    );
}

#[test]
fn word_freq_of_empty_list_is_empty() {
    let freq = word_freq(&Vec::new());
    assert!(freq.is_empty());
}

#[test]
fn group_by_key_keeps_order_within_groups() {
    let items = vec![
        Item { key: "database".to_string(), val: 100 },
        Item { key: "cache".to_string(), val: 200 },
        Item { key: "database".to_string(), val: 150 },
        Item { key: "cache".to_string(), val: 250 },
    ];
    let grouped = group_by_key(&items);
    assert_eq!(grouped.len(), 2);
    assert_eq!(grouped[0].0, "database");
    assert_eq!(
        grouped[0].1.iter().map(|i| i.val).collect::<Vec<_>>(),
        vec![100, 150]
    );
    assert_eq!(grouped[1].0, "cache");
    assert_eq!(
        grouped[1].1.iter().map(|i| i.val).collect::<Vec<_>>(),
        vec![200, 250]
    );
}
