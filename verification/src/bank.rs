//! Question banks: the per-topic document shape questions ship in, the
//! built-in default set used when no bank can be loaded, and a codec that
//! writes a bank to text and reads it back losslessly.

use vstd::prelude::*;
use crate::session::{Explanation, Question, QuestionOption, QuestionView};
use crate::text::str_eq;

verus! {

/// One topic's question bank: a topic label and its questions.
#[derive(Debug)]
pub struct QuestionBank {
    pub module: String,
    pub questions: Vec<Question>,
}

/// The mathematical image of a `QuestionBank`.
#[verifier::ext_equal]
pub ghost struct BankView {
    pub module: Seq<char>,
    pub questions: Seq<QuestionView>,
}

impl View for QuestionBank {
    type V = BankView;

    open spec fn view(&self) -> BankView {
        BankView { module: self.module@, questions: self.questions.deep_view() }
    }
}

/// The bank file a canonical topic key is stored under, if the topic ships
/// with one.
pub open spec fn bank_filename_of(key: Seq<char>) -> Option<Seq<char>> {
    if key == "Options"@ {
        Some("options.json"@)
    } else if key == "Async"@ {
        Some("async.json"@)
    } else if key == "Errors"@ {
        Some("errors.json"@)
    } else if key == "Iterators"@ {
        Some("iterators.json"@)
    } else if key == "Concurrency"@ {
        Some("concurrency.json"@)
    } else if key == "Logging"@ {
        Some("logging.json"@)
    } else if key == "Pattern"@ {
        Some("pattern_matching.json"@)
    } else if key == "I/O"@ {
        Some("io_boundaries.json"@)
    } else {
        None
    }
}

/// The bank file for this canonical topic key, or nothing for a topic
/// without shipped content.
pub fn bank_filename(key: &str) -> (r: Option<String>)
    ensures
        match r {
            Some(name) => bank_filename_of(key@) == Some(name@),
            None => bank_filename_of(key@) is None,
        },
{
    if str_eq(key, "Options") {
        Some("options.json".to_owned())
    } else if str_eq(key, "Async") {
        Some("async.json".to_owned())
    } else if str_eq(key, "Errors") {
        Some("errors.json".to_owned())
    } else if str_eq(key, "Iterators") {
        Some("iterators.json".to_owned())
    } else if str_eq(key, "Concurrency") {
        Some("concurrency.json".to_owned())
    } else if str_eq(key, "Logging") {
        Some("logging.json".to_owned())
    } else if str_eq(key, "Pattern") {
        Some("pattern_matching.json".to_owned())
    } else if str_eq(key, "I/O") {
        Some("io_boundaries.json".to_owned())
    } else {
        None
    }
}

/// The identity and shape of the built-in default Options question: its
/// stable question id, the six option identities in order, the three
/// correct flags, one aligned explanation per option, and three key
/// points.
pub open spec fn is_default_question(q: QuestionView) -> bool {
    &&& q.wf()
    &&& q.id == "options_001"@
    &&& q.options.len() == 6
    &&& q.options[0].id == "opt_a"@
    &&& q.options[1].id == "opt_b"@
    &&& q.options[2].id == "opt_c"@
    &&& q.options[3].id == "opt_d"@
    &&& q.options[4].id == "opt_e"@
    &&& q.options[5].id == "opt_f"@
    &&& forall|i: int|
        0 <= i < 6 ==> (#[trigger] q.options[i]).is_correct == (i == 0 || i == 1 || i == 4)
    &&& q.explanations.len() == 6
    &&& forall|i: int| 0 <= i < 6 ==> (#[trigger] q.explanations[i]).0 == q.options[i].id
    &&& q.key_points.len() == 3
}

/// One answer option of the built-in default question.
fn default_option(id: &str, content: &str, is_correct: bool) -> (r: QuestionOption)
    ensures
        r@.id == id@,
        r@.content == content@,
        r@.is_correct == is_correct,
{
    QuestionOption { id: id.to_owned(), content: content.to_owned(), is_correct }
}

/// The built-in default question set: a single review exercise for the
/// Options topic, used when no bank file can be loaded. Three of its six
/// options are flagged correct, every option carries an explanation, and
/// three key learning points are recorded.
pub fn default_questions() -> (r: Vec<Question>)
    ensures
        r.len() == 1,
        is_default_question(r.deep_view()[0]),
{
    let mut options: Vec<QuestionOption> = Vec::new();
    options.push(default_option("opt_a", "The maximum length is never checked", true));
    options.push(
        default_option("opt_b", "The email check is too weak for real addresses", true),
    );
    options.push(default_option("opt_c", "The function name is unclear", false));
    options.push(default_option("opt_d", "It should return Option instead of Result", false));
    options.push(default_option("opt_e", "Special characters are not handled", true));
    options.push(default_option("opt_f", "The implementation is fully correct", false));
    let mut explanations: Vec<Explanation> = Vec::new();
    explanations.push(
        Explanation {
            option_id: "opt_a".to_owned(),
            text: "The requirement bounds the length from both sides, but only the minimum is checked".to_owned(),
        },
    );
    explanations.push(
        Explanation {
            option_id: "opt_b".to_owned(),
            text: "Containing an at-sign and a dot does not make a valid address".to_owned(),
        },
    );
    explanations.push(
        Explanation {
            option_id: "opt_c".to_owned(),
            text: "The name states exactly what the function does".to_owned(),
        },
    );
    explanations.push(
        Explanation {
            option_id: "opt_d".to_owned(),
            text: "Result fits here: the caller needs the reason a value was rejected".to_owned(),
        },
    );
    explanations.push(
        Explanation {
            option_id: "opt_e".to_owned(),
            text: "Nothing rejects control or separator characters".to_owned(),
        },
    );
    explanations.push(
        Explanation {
            option_id: "opt_f".to_owned(),
            text: "Several stated requirements are not met, so it is not correct".to_owned(),
        },
    );
    let mut key_points: Vec<String> = Vec::new();
    key_points.push("Check every stated requirement, including upper bounds".to_owned());
    key_points.push("Substring checks rarely validate a format".to_owned());
    key_points.push("Boundary conditions such as maximum sizes are easy to miss".to_owned());
    let question = Question {
        id: "options_001".to_owned(),
        title: "User input validation".to_owned(),
        description: "A user-input validation routine is required: accept a string, check that it is not empty and that its length lies between 3 and 20 characters, report the reason whenever the input is invalid, and perform a basic email-format check. Review this implementation against those requirements".to_owned(),
        code: "fn validate_user_input(input: &str) -> Result<String, String> {\n    if input.is_empty() {\n        return Err(\"input must not be empty\".to_string());\n    }\n\n    if input.len() < 3 {\n        return Err(\"input is too short\".to_string());\n    }\n\n    if input.contains('@') {\n        if !input.contains('.') {\n            return Err(\"invalid email format\".to_string());\n        }\n    }\n\n    Ok(input.to_string())\n}".to_owned(),
        options,
        explanations,
        key_points,
    };
    let mut r: Vec<Question> = Vec::new();
    r.push(question);
    proof {
        reveal_strlit("opt_a");
        reveal_strlit("opt_b");
        reveal_strlit("opt_c");
        reveal_strlit("opt_d");
        reveal_strlit("opt_e");
        reveal_strlit("opt_f");
        let q = r.deep_view()[0];
        assert(q.id == "options_001"@);
        assert(q.options.len() == 6);
        assert(q.explanations.len() == 6);
        assert(q.key_points.len() == 3);
        assert(q.options[0].id == "opt_a"@);
        assert(q.options[1].id == "opt_b"@);
        assert(q.options[2].id == "opt_c"@);
        assert(q.options[3].id == "opt_d"@);
        assert(q.options[4].id == "opt_e"@);
        assert(q.options[5].id == "opt_f"@);
        assert(q.explanations[0].0 == "opt_a"@);
        assert(q.explanations[1].0 == "opt_b"@);
        assert(q.explanations[2].0 == "opt_c"@);
        assert(q.explanations[3].0 == "opt_d"@);
        assert(q.explanations[4].0 == "opt_e"@);
        assert(q.explanations[5].0 == "opt_f"@);
        assert("opt_a"@[4] == 'a');
        assert("opt_b"@[4] == 'b');
        assert("opt_c"@[4] == 'c');
        assert("opt_d"@[4] == 'd');
        assert("opt_e"@[4] == 'e');
        assert("opt_f"@[4] == 'f');
        assert forall|i: int, j: int| 0 <= i < j < 6 implies q.options[i].id != q.options[j].id by {
            assert(q.options[i].id[4] != q.options[j].id[4]);
        }
        assert forall|i: int, j: int| 0 <= i < j < 6 implies q.explanations[i].0
            != q.explanations[j].0 by {
            assert(q.explanations[i].0[4] != q.explanations[j].0[4]);
        }
        assert forall|i: int| 0 <= i < 6 implies (#[trigger] q.explanations[i]).0 == q.options[
            i
        ].id by {
        }
    }
    r
}


/// The questions a topic starts with, given the outcome of loading its
/// bank file: a parsed bank contributes its questions unchanged; a failed
/// load falls back to the built-in default set for the Options topic and
/// to no content at all for any other topic, which the store then reports
/// as an empty result rather than an error.
pub fn questions_after_load(module_key: &str, parsed: Option<QuestionBank>) -> (r: Vec<Question>)
    ensures
        match parsed {
            Some(bank) => r.deep_view() == bank@.questions,
            None => if module_key@ == "Options"@ {
                r.len() == 1 && is_default_question(r.deep_view()[0])
            } else {
                r.len() == 0
            },
        },
{
    match parsed {
        Some(bank) => bank.questions,
        None => {
            if str_eq(module_key, "Options") {
                default_questions()
            } else {
                Vec::new()
            }
        },
    }
}

} // verus!
