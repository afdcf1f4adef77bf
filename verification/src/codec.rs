//! The question-bank codec: writes a bank as a structured text document
//! and parses such a document back. The encoder and parser are both
//! specified exactly, and parsing an encoded bank is proved to return the
//! bank unchanged - the round trip loses no field.

use vstd::prelude::*;
use crate::bank::{BankView, QuestionBank};
use crate::session::{Explanation, OptionView, Question, QuestionOption, QuestionView};
use crate::text::{chars_to_string, push_char, string_to_chars};

verus! {

// ---------------------------------------------------------------------
// The encoded form, character by character.
// ---------------------------------------------------------------------
/// A string character as it is written: quotes and backslashes get a
/// backslash escape, everything else stands for itself.
pub open spec fn esc_char(c: char) -> Seq<char> {
    if c == '"' || c == '\\' {
        seq!['\\', c]
    } else {
        seq![c]
    }
}

/// A string body, escaped character by character.
pub open spec fn esc(s: Seq<char>) -> Seq<char>
    decreases s.len(),
{
    if s.len() == 0 {
        Seq::empty()
    } else {
        esc_char(s[0]) + esc(s.drop_first())
    }
}

/// A quoted, escaped string.
pub open spec fn enc_str(s: Seq<char>) -> Seq<char> {
    seq!['"'] + esc(s) + seq!['"']
}

/// A boolean literal.
pub open spec fn enc_bool(b: bool) -> Seq<char> {
    if b {
        "true"@
    } else {
        "false"@
    }
}

/// One answer option as an object with its three fields.
pub open spec fn enc_option(o: OptionView) -> Seq<char> {
    "{\"id\":"@ + enc_str(o.id) + ",\"content\":"@ + enc_str(o.content) + ",\"is_correct\":"@
        + enc_bool(o.is_correct) + "}"@
}

/// The comma-led continuation of an option list.
pub open spec fn enc_options_rest(opts: Seq<OptionView>) -> Seq<char>
    decreases opts.len(),
{
    if opts.len() == 0 {
        Seq::empty()
    } else {
        seq![','] + enc_option(opts[0]) + enc_options_rest(opts.drop_first())
    }
}

/// A bracketed option list.
pub open spec fn enc_option_list(opts: Seq<OptionView>) -> Seq<char> {
    if opts.len() == 0 {
        seq!['[', ']']
    } else {
        seq!['['] + enc_option(opts[0]) + enc_options_rest(opts.drop_first()) + seq![']']
    }
}

/// One explanation entry: its key and text.
pub open spec fn enc_expl(e: (Seq<char>, Seq<char>)) -> Seq<char> {
    enc_str(e.0) + seq![':'] + enc_str(e.1)
}

/// The comma-led continuation of an explanation object.
pub open spec fn enc_expls_rest(es: Seq<(Seq<char>, Seq<char>)>) -> Seq<char>
    decreases es.len(),
{
    if es.len() == 0 {
        Seq::empty()
    } else {
        seq![','] + enc_expl(es[0]) + enc_expls_rest(es.drop_first())
    }
}

/// A braced explanation object.
pub open spec fn enc_expl_obj(es: Seq<(Seq<char>, Seq<char>)>) -> Seq<char> {
    if es.len() == 0 {
        seq!['{', '}']
    } else {
        seq!['{'] + enc_expl(es[0]) + enc_expls_rest(es.drop_first()) + seq!['}']
    }
}

/// The comma-led continuation of a string list.
pub open spec fn enc_strs_rest(xs: Seq<Seq<char>>) -> Seq<char>
    decreases xs.len(),
{
    if xs.len() == 0 {
        Seq::empty()
    } else {
        seq![','] + enc_str(xs[0]) + enc_strs_rest(xs.drop_first())
    }
}

/// A bracketed string list.
pub open spec fn enc_str_list(xs: Seq<Seq<char>>) -> Seq<char> {
    if xs.len() == 0 {
        seq!['[', ']']
    } else {
        seq!['['] + enc_str(xs[0]) + enc_strs_rest(xs.drop_first()) + seq![']']
    }
}

/// One question as an object with its seven fields.
pub open spec fn enc_question(q: QuestionView) -> Seq<char> {
    "{\"id\":"@ + enc_str(q.id) + ",\"title\":"@ + enc_str(q.title) + ",\"description\":"@
        + enc_str(q.description) + ",\"code\":"@ + enc_str(q.code) + ",\"options\":"@
        + enc_option_list(q.options) + ",\"explanations\":"@ + enc_expl_obj(q.explanations)
        + ",\"key_points\":"@ + enc_str_list(q.key_points) + "}"@
}

/// The comma-led continuation of a question list.
pub open spec fn enc_questions_rest(qs: Seq<QuestionView>) -> Seq<char>
    decreases qs.len(),
{
    if qs.len() == 0 {
        Seq::empty()
    } else {
        seq![','] + enc_question(qs[0]) + enc_questions_rest(qs.drop_first())
    }
}

/// A bracketed question list.
pub open spec fn enc_question_list(qs: Seq<QuestionView>) -> Seq<char> {
    if qs.len() == 0 {
        seq!['[', ']']
    } else {
        seq!['['] + enc_question(qs[0]) + enc_questions_rest(qs.drop_first()) + seq![']']
    }
}

/// A whole bank document.
pub open spec fn enc_bank(b: BankView) -> Seq<char> {
    "{\"module\":"@ + enc_str(b.module) + ",\"questions\":"@ + enc_question_list(b.questions)
        + "}"@
}

// ---------------------------------------------------------------------
// The executable encoder.
// ---------------------------------------------------------------------
/// Escaping distributes over concatenation.
proof fn lemma_esc_append(a: Seq<char>, b: Seq<char>)
    ensures
        esc(a + b) == esc(a) + esc(b),
    decreases a.len(),
{
    if a.len() == 0 {
        assert(a + b =~= b);
        assert(esc(a) + esc(b) =~= esc(b));
    } else {
        assert((a + b).drop_first() =~= a.drop_first() + b);
        assert((a + b)[0] == a[0]);
        lemma_esc_append(a.drop_first(), b);
        assert(esc_char(a[0]) + (esc(a.drop_first()) + esc(b)) =~= (esc_char(a[0]) + esc(
            a.drop_first(),
        )) + esc(b));
    }
}

/// Append the quoted, escaped form of a string.
fn encode_string_into(acc: &mut String, s: &str)
    ensures
        final(acc)@ == old(acc)@ + enc_str(s@),
{
    let chars = string_to_chars(s);
    push_char(acc, '"');
    let ghost acc1 = acc@;
    let mut k: usize = 0;
    while k < chars.len()
        invariant
            k <= chars.len(),
            chars@ == s@,
            acc@ == acc1 + esc(s@.take(k as int)),
        decreases chars.len() - k,
    {
        let c = chars[k];
        proof {
            assert(s@.take(k + 1) =~= s@.take(k as int) + seq![s@[k as int]]);
            lemma_esc_append(s@.take(k as int), seq![s@[k as int]]);
            assert(seq![s@[k as int]].drop_first() =~= Seq::<char>::empty());
            assert(esc(Seq::<char>::empty()) =~= Seq::<char>::empty());
            assert(esc(seq![s@[k as int]]) =~= esc_char(s@[k as int]) + Seq::<char>::empty());
            assert(esc(seq![s@[k as int]]) =~= esc_char(s@[k as int]));
        }
        if c == '"' || c == '\\' {
            push_char(acc, '\\');
            push_char(acc, c);
        } else {
            push_char(acc, c);
        }
        proof {
            if s@[k as int] == '"' || s@[k as int] == '\\' {
                assert(acc@ =~= acc1 + esc(s@.take(k + 1)));
            } else {
                assert(acc@ =~= acc1 + esc(s@.take(k + 1)));
            }
        }
        k += 1;
    }
    push_char(acc, '"');
    proof {
        assert(s@.take(s@.len() as int) =~= s@);
        assert(acc@ =~= old(acc)@ + enc_str(s@));
    }
}

/// Append a boolean literal.
fn encode_bool_into(acc: &mut String, b: bool)
    ensures
        final(acc)@ == old(acc)@ + enc_bool(b),
{
    if b {
        acc.append("true");
    } else {
        acc.append("false");
    }
}

/// Append one option object.
fn encode_option_into(acc: &mut String, o: &QuestionOption)
    ensures
        final(acc)@ == old(acc)@ + enc_option(o@),
{
    acc.append("{\"id\":");
    encode_string_into(acc, o.id.as_str());
    acc.append(",\"content\":");
    encode_string_into(acc, o.content.as_str());
    acc.append(",\"is_correct\":");
    encode_bool_into(acc, o.is_correct);
    acc.append("}");
    proof {
        assert(acc@ =~= old(acc)@ + enc_option(o@));
    }
}

/// Append a bracketed option list.
fn encode_options_into(acc: &mut String, opts: &Vec<QuestionOption>)
    ensures
        final(acc)@ == old(acc)@ + enc_option_list(opts.deep_view()),
{
    push_char(acc, '[');
    let ghost ov = opts.deep_view();
    let mut k: usize = 0;
    while k < opts.len()
        invariant
            k <= opts.len(),
            ov == opts.deep_view(),
            acc@ == old(acc)@ + seq!['['] + (if k == 0 {
                Seq::<char>::empty()
            } else {
                enc_option(ov[0]) + enc_options_rest(ov.take(k as int).drop_first())
            }),
        decreases opts.len() - k,
    {
        let ghost acc_in = acc@;
        if k > 0 {
            push_char(acc, ',');
        }
        encode_option_into(acc, &opts[k]);
        proof {
            if k == 0 {
                assert(ov.take(1).drop_first() =~= Seq::<OptionView>::empty());
                assert(enc_options_rest(Seq::<OptionView>::empty()) =~= Seq::<char>::empty());
                assert(acc@ =~= old(acc)@ + seq!['['] + (enc_option(ov[0]) + enc_options_rest(
                    ov.take(1).drop_first(),
                )));
            } else {
                lemma_enc_options_rest_snoc(ov.take(k as int).drop_first(), ov[k as int]);
                assert(ov.take(k + 1).drop_first() =~= ov.take(k as int).drop_first().push(
                    ov[k as int],
                ));
                assert(acc@ =~= old(acc)@ + seq!['['] + (enc_option(ov[0]) + enc_options_rest(
                    ov.take(k + 1).drop_first(),
                )));
            }
        }
        k += 1;
    }
    push_char(acc, ']');
    proof {
        if opts.len() == 0 {
            assert(acc@ =~= old(acc)@ + enc_option_list(ov));
        } else {
            assert(ov.take(ov.len() as int) =~= ov);
            assert(acc@ =~= old(acc)@ + enc_option_list(ov));
        }
    }
}

/// Appending one element to a comma-led list continuation appends its
/// comma-led encoding.
proof fn lemma_enc_options_rest_snoc(xs: Seq<OptionView>, x: OptionView)
    ensures
        enc_options_rest(xs.push(x)) == enc_options_rest(xs) + seq![','] + enc_option(x),
    decreases xs.len(),
{
    if xs.len() == 0 {
        assert(xs.push(x)[0] == x);
        assert(xs.push(x).drop_first() =~= Seq::<OptionView>::empty());
        assert(enc_options_rest(Seq::<OptionView>::empty()) =~= Seq::<char>::empty());
        assert(enc_options_rest(xs.push(x)) =~= enc_options_rest(xs) + seq![','] + enc_option(x));
    } else {
        assert(xs.push(x)[0] == xs[0]);
        assert(xs.push(x).drop_first() =~= xs.drop_first().push(x));
        lemma_enc_options_rest_snoc(xs.drop_first(), x);
        assert(enc_options_rest(xs.push(x)) =~= enc_options_rest(xs) + seq![','] + enc_option(x));
    }
}


/// Append one explanation entry.
fn encode_expl_into(acc: &mut String, e: &Explanation)
    ensures
        final(acc)@ == old(acc)@ + enc_expl(e@),
{
    encode_string_into(acc, e.option_id.as_str());
    push_char(acc, ':');
    encode_string_into(acc, e.text.as_str());
    proof {
        assert(acc@ =~= old(acc)@ + enc_expl(e@));
    }
}


/// Appending one element to a comma-led list continuation appends its
/// comma-led encoding.
proof fn lemma_enc_expls_rest_snoc(xs: Seq<(Seq<char>, Seq<char>)>, x: (Seq<char>, Seq<char>))
    ensures
        enc_expls_rest(xs.push(x)) == enc_expls_rest(xs) + seq![','] + enc_expl(x),
    decreases xs.len(),
{
    if xs.len() == 0 {
        assert(xs.push(x)[0] == x);
        assert(xs.push(x).drop_first() =~= Seq::<(Seq<char>, Seq<char>)>::empty());
        assert(enc_expls_rest(Seq::<(Seq<char>, Seq<char>)>::empty()) =~= Seq::<char>::empty());
        assert(enc_expls_rest(xs.push(x)) =~= enc_expls_rest(xs) + seq![','] + enc_expl(x));
    } else {
        assert(xs.push(x)[0] == xs[0]);
        assert(xs.push(x).drop_first() =~= xs.drop_first().push(x));
        lemma_enc_expls_rest_snoc(xs.drop_first(), x);
        assert(enc_expls_rest(xs.push(x)) =~= enc_expls_rest(xs) + seq![','] + enc_expl(x));
    }
}


/// Append a braced explanation object, entry by entry.
fn encode_expls_into(acc: &mut String, items: &Vec<Explanation>)
    ensures
        final(acc)@ == old(acc)@ + enc_expl_obj(items.deep_view()),
{
    push_char(acc, '{');
    let ghost ov = items.deep_view();
    let mut k: usize = 0;
    while k < items.len()
        invariant
            k <= items.len(),
            ov == items.deep_view(),
            acc@ == old(acc)@ + seq!['{'] + (if k == 0 {
                Seq::<char>::empty()
            } else {
                enc_expl(ov[0]) + enc_expls_rest(ov.take(k as int).drop_first())
            }),
        decreases items.len() - k,
    {
        if k > 0 {
            push_char(acc, ',');
        }
        encode_expl_into(acc, &items[k]);
        proof {
            if k == 0 {
                assert(ov.take(1).drop_first() =~= Seq::<(Seq<char>, Seq<char>)>::empty());
                assert(enc_expls_rest(Seq::<(Seq<char>, Seq<char>)>::empty()) =~= Seq::<char>::empty());
                assert(acc@ =~= old(acc)@ + seq!['{'] + (enc_expl(ov[0]) + enc_expls_rest(
                    ov.take(1).drop_first(),
                )));
            } else {
                lemma_enc_expls_rest_snoc(ov.take(k as int).drop_first(), ov[k as int]);
                assert(ov.take(k + 1).drop_first() =~= ov.take(k as int).drop_first().push(
                    ov[k as int],
                ));
                assert(acc@ =~= old(acc)@ + seq!['{'] + (enc_expl(ov[0]) + enc_expls_rest(
                    ov.take(k + 1).drop_first(),
                )));
            }
        }
        k += 1;
    }
    push_char(acc, '}');
    proof {
        if items.len() == 0 {
            assert(acc@ =~= old(acc)@ + enc_expl_obj(ov));
        } else {
            assert(ov.take(ov.len() as int) =~= ov);
            assert(acc@ =~= old(acc)@ + enc_expl_obj(ov));
        }
    }
}


/// Appending one element to a comma-led list continuation appends its
/// comma-led encoding.
proof fn lemma_enc_strs_rest_snoc(xs: Seq<Seq<char>>, x: Seq<char>)
    ensures
        enc_strs_rest(xs.push(x)) == enc_strs_rest(xs) + seq![','] + enc_str(x),
    decreases xs.len(),
{
    if xs.len() == 0 {
        assert(xs.push(x)[0] == x);
        assert(xs.push(x).drop_first() =~= Seq::<Seq<char>>::empty());
        assert(enc_strs_rest(Seq::<Seq<char>>::empty()) =~= Seq::<char>::empty());
        assert(enc_strs_rest(xs.push(x)) =~= enc_strs_rest(xs) + seq![','] + enc_str(x));
    } else {
        assert(xs.push(x)[0] == xs[0]);
        assert(xs.push(x).drop_first() =~= xs.drop_first().push(x));
        lemma_enc_strs_rest_snoc(xs.drop_first(), x);
        assert(enc_strs_rest(xs.push(x)) =~= enc_strs_rest(xs) + seq![','] + enc_str(x));
    }
}


/// Append a bracketed string list, element by element.
fn encode_strs_into(acc: &mut String, items: &Vec<String>)
    ensures
        final(acc)@ == old(acc)@ + enc_str_list(items.deep_view()),
{
    push_char(acc, '[');
    let ghost ov = items.deep_view();
    let mut k: usize = 0;
    while k < items.len()
        invariant
            k <= items.len(),
            ov == items.deep_view(),
            acc@ == old(acc)@ + seq!['['] + (if k == 0 {
                Seq::<char>::empty()
            } else {
                enc_str(ov[0]) + enc_strs_rest(ov.take(k as int).drop_first())
            }),
        decreases items.len() - k,
    {
        if k > 0 {
            push_char(acc, ',');
        }
        encode_string_into(acc, items[k].as_str());
        proof {
            if k == 0 {
                assert(ov.take(1).drop_first() =~= Seq::<Seq<char>>::empty());
                assert(enc_strs_rest(Seq::<Seq<char>>::empty()) =~= Seq::<char>::empty());
                assert(acc@ =~= old(acc)@ + seq!['['] + (enc_str(ov[0]) + enc_strs_rest(
                    ov.take(1).drop_first(),
                )));
            } else {
                lemma_enc_strs_rest_snoc(ov.take(k as int).drop_first(), ov[k as int]);
                assert(ov.take(k + 1).drop_first() =~= ov.take(k as int).drop_first().push(
                    ov[k as int],
                ));
                assert(acc@ =~= old(acc)@ + seq!['['] + (enc_str(ov[0]) + enc_strs_rest(
                    ov.take(k + 1).drop_first(),
                )));
            }
        }
        k += 1;
    }
    push_char(acc, ']');
    proof {
        if items.len() == 0 {
            assert(acc@ =~= old(acc)@ + enc_str_list(ov));
        } else {
            assert(ov.take(ov.len() as int) =~= ov);
            assert(acc@ =~= old(acc)@ + enc_str_list(ov));
        }
    }
}


/// Append one question object.
#[verifier::rlimit(60)]
fn encode_question_into(acc: &mut String, q: &Question)
    ensures
        final(acc)@ == old(acc)@ + enc_question(q@),
{
    acc.append("{\"id\":");
    encode_string_into(acc, q.id.as_str());
    acc.append(",\"title\":");
    encode_string_into(acc, q.title.as_str());
    acc.append(",\"description\":");
    encode_string_into(acc, q.description.as_str());
    acc.append(",\"code\":");
    encode_string_into(acc, q.code.as_str());
    acc.append(",\"options\":");
    encode_options_into(acc, &q.options);
    acc.append(",\"explanations\":");
    encode_expls_into(acc, &q.explanations);
    acc.append(",\"key_points\":");
    encode_strs_into(acc, &q.key_points);
    acc.append("}");
    proof {
        assert(acc@ =~= old(acc)@ + enc_question(q@));
    }
}


/// Appending one element to a comma-led list continuation appends its
/// comma-led encoding.
proof fn lemma_enc_questions_rest_snoc(xs: Seq<QuestionView>, x: QuestionView)
    ensures
        enc_questions_rest(xs.push(x)) == enc_questions_rest(xs) + seq![','] + enc_question(x),
    decreases xs.len(),
{
    if xs.len() == 0 {
        assert(xs.push(x)[0] == x);
        assert(xs.push(x).drop_first() =~= Seq::<QuestionView>::empty());
        assert(enc_questions_rest(Seq::<QuestionView>::empty()) =~= Seq::<char>::empty());
        assert(enc_questions_rest(xs.push(x)) =~= enc_questions_rest(xs) + seq![','] + enc_question(x));
    } else {
        assert(xs.push(x)[0] == xs[0]);
        assert(xs.push(x).drop_first() =~= xs.drop_first().push(x));
        lemma_enc_questions_rest_snoc(xs.drop_first(), x);
        assert(enc_questions_rest(xs.push(x)) =~= enc_questions_rest(xs) + seq![','] + enc_question(x));
    }
}


/// Append a bracketed question list, element by element.
#[verifier::rlimit(60)]
fn encode_questions_into(acc: &mut String, items: &Vec<Question>)
    ensures
        final(acc)@ == old(acc)@ + enc_question_list(items.deep_view()),
{
    push_char(acc, '[');
    let ghost ov = items.deep_view();
    let mut k: usize = 0;
    while k < items.len()
        invariant
            k <= items.len(),
            ov == items.deep_view(),
            acc@ == old(acc)@ + seq!['['] + (if k == 0 {
                Seq::<char>::empty()
            } else {
                enc_question(ov[0]) + enc_questions_rest(ov.take(k as int).drop_first())
            }),
        decreases items.len() - k,
    {
        if k > 0 {
            push_char(acc, ',');
        }
        encode_question_into(acc, &items[k]);
        proof {
            if k == 0 {
                assert(ov.take(1).drop_first() =~= Seq::<QuestionView>::empty());
                assert(enc_questions_rest(Seq::<QuestionView>::empty()) =~= Seq::<char>::empty());
                assert(acc@ =~= old(acc)@ + seq!['['] + (enc_question(ov[0]) + enc_questions_rest(
                    ov.take(1).drop_first(),
                )));
            } else {
                lemma_enc_questions_rest_snoc(ov.take(k as int).drop_first(), ov[k as int]);
                assert(ov.take(k + 1).drop_first() =~= ov.take(k as int).drop_first().push(
                    ov[k as int],
                ));
                assert(acc@ =~= old(acc)@ + seq!['['] + (enc_question(ov[0]) + enc_questions_rest(
                    ov.take(k + 1).drop_first(),
                )));
            }
        }
        k += 1;
    }
    push_char(acc, ']');
    proof {
        if items.len() == 0 {
            assert(acc@ =~= old(acc)@ + enc_question_list(ov));
        } else {
            assert(ov.take(ov.len() as int) =~= ov);
            assert(acc@ =~= old(acc)@ + enc_question_list(ov));
        }
    }
}


/// Write a whole bank as its canonical text document.
pub fn encode_bank(bank: &QuestionBank) -> (r: String)
    ensures
        r@ == enc_bank(bank@),
{
    let mut acc = String::new();
    acc.append("{\"module\":");
    encode_string_into(&mut acc, bank.module.as_str());
    acc.append(",\"questions\":");
    encode_questions_into(&mut acc, &bank.questions);
    acc.append("}");
    proof {
        assert(acc@ =~= enc_bank(bank@));
    }
    acc
}


// ---------------------------------------------------------------------
// The parser, specified exactly. Each function consumes from position
// `i` and yields the parsed value with the position after it.
// ---------------------------------------------------------------------
/// The text holds exactly `t` starting at position `i`.
pub open spec fn matches_at(s: Seq<char>, i: int, t: Seq<char>) -> bool {
    &&& 0 <= i
    &&& i + t.len() <= s.len()
    &&& forall|k: int| 0 <= k < t.len() ==> s[i + k] == #[trigger] t[k]
}

/// A fixed token: consumed whole or not at all.
pub open spec fn p_lit(s: Seq<char>, i: int, t: Seq<char>) -> Option<int> {
    if matches_at(s, i, t) {
        Some(i + t.len())
    } else {
        None
    }
}

/// A string body up to its closing quote, undoing the escapes.
pub open spec fn p_str_body(s: Seq<char>, i: int) -> Option<(Seq<char>, int)>
    decreases s.len() - i,
{
    if i < 0 || i >= s.len() {
        None
    } else if s[i] == '"' {
        Some((Seq::empty(), i + 1))
    } else if s[i] == '\\' {
        if i + 2 <= s.len() {
            match p_str_body(s, i + 2) {
                Some((t, j)) => Some((seq![s[i + 1]] + t, j)),
                None => None,
            }
        } else {
            None
        }
    } else {
        match p_str_body(s, i + 1) {
            Some((t, j)) => Some((seq![s[i]] + t, j)),
            None => None,
        }
    }
}

/// A quoted string.
pub open spec fn p_string(s: Seq<char>, i: int) -> Option<(Seq<char>, int)> {
    if 0 <= i < s.len() && s[i] == '"' {
        p_str_body(s, i + 1)
    } else {
        None
    }
}

/// A boolean literal.
pub open spec fn p_bool(s: Seq<char>, i: int) -> Option<(bool, int)> {
    if matches_at(s, i, "true"@) {
        Some((true, i + 4))
    } else if matches_at(s, i, "false"@) {
        Some((false, i + 5))
    } else {
        None
    }
}

/// One option object.
pub open spec fn p_option(s: Seq<char>, i: int) -> Option<(OptionView, int)> {
    match p_lit(s, i, "{\"id\":"@) {
        Some(i1) => match p_string(s, i1) {
            Some((id, i2)) => match p_lit(s, i2, ",\"content\":"@) {
                Some(i3) => match p_string(s, i3) {
                    Some((content, i4)) => match p_lit(s, i4, ",\"is_correct\":"@) {
                        Some(i5) => match p_bool(s, i5) {
                            Some((b, i6)) => match p_lit(s, i6, "}"@) {
                                Some(i7) => Some(
                                    (OptionView { id, content, is_correct: b }, i7),
                                ),
                                None => None,
                            },
                            None => None,
                        },
                        None => None,
                    },
                    None => None,
                },
                None => None,
            },
            None => None,
        },
        None => None,
    }
}

/// The continuation of an option list: a close bracket, or a comma and one
/// more element. A parse that makes no progress is rejected.
pub open spec fn p_options_rest(s: Seq<char>, i: int) -> Option<(Seq<OptionView>, int)>
    decreases s.len() - i,
{
    if i < 0 || i >= s.len() {
        None
    } else if s[i] == ']' {
        Some((Seq::empty(), i + 1))
    } else if s[i] == ',' {
        match p_option(s, i + 1) {
            Some((o, j)) => if i + 1 < j && j <= s.len() {
                match p_options_rest(s, j) {
                    Some((os, k)) => Some((seq![o] + os, k)),
                    None => None,
                }
            } else {
                None
            },
            None => None,
        }
    } else {
        None
    }
}

/// A bracketed option list.
pub open spec fn p_options(s: Seq<char>, i: int) -> Option<(Seq<OptionView>, int)> {
    if 0 <= i && i + 1 < s.len() && s[i] == '[' {
        if s[i + 1] == ']' {
            Some((Seq::empty(), i + 2))
        } else {
            match p_option(s, i + 1) {
                Some((o, j)) => if i + 1 < j && j <= s.len() {
                    match p_options_rest(s, j) {
                        Some((os, k)) => Some((seq![o] + os, k)),
                        None => None,
                    }
                } else {
                    None
                },
                None => None,
            }
        }
    } else {
        None
    }
}

/// One explanation entry: a key, a colon, a text.
pub open spec fn p_expl(s: Seq<char>, i: int) -> Option<((Seq<char>, Seq<char>), int)> {
    match p_string(s, i) {
        Some((k0, i1)) => match p_lit(s, i1, seq![':']) {
            Some(i2) => match p_string(s, i2) {
                Some((t, i3)) => Some(((k0, t), i3)),
                None => None,
            },
            None => None,
        },
        None => None,
    }
}

/// The continuation of an explanation object.
pub open spec fn p_expls_rest(s: Seq<char>, i: int) -> Option<(Seq<(Seq<char>, Seq<char>)>, int)>
    decreases s.len() - i,
{
    if i < 0 || i >= s.len() {
        None
    } else if s[i] == '}' {
        Some((Seq::empty(), i + 1))
    } else if s[i] == ',' {
        match p_expl(s, i + 1) {
            Some((e, j)) => if i + 1 < j && j <= s.len() {
                match p_expls_rest(s, j) {
                    Some((es, k)) => Some((seq![e] + es, k)),
                    None => None,
                }
            } else {
                None
            },
            None => None,
        }
    } else {
        None
    }
}

/// A braced explanation object.
pub open spec fn p_expls(s: Seq<char>, i: int) -> Option<(Seq<(Seq<char>, Seq<char>)>, int)> {
    if 0 <= i && i + 1 < s.len() && s[i] == '{' {
        if s[i + 1] == '}' {
            Some((Seq::empty(), i + 2))
        } else {
            match p_expl(s, i + 1) {
                Some((e, j)) => if i + 1 < j && j <= s.len() {
                    match p_expls_rest(s, j) {
                        Some((es, k)) => Some((seq![e] + es, k)),
                        None => None,
                    }
                } else {
                    None
                },
                None => None,
            }
        }
    } else {
        None
    }
}

/// The continuation of a string list.
pub open spec fn p_strs_rest(s: Seq<char>, i: int) -> Option<(Seq<Seq<char>>, int)>
    decreases s.len() - i,
{
    if i < 0 || i >= s.len() {
        None
    } else if s[i] == ']' {
        Some((Seq::empty(), i + 1))
    } else if s[i] == ',' {
        match p_string(s, i + 1) {
            Some((x, j)) => if i + 1 < j && j <= s.len() {
                match p_strs_rest(s, j) {
                    Some((xs, k)) => Some((seq![x] + xs, k)),
                    None => None,
                }
            } else {
                None
            },
            None => None,
        }
    } else {
        None
    }
}

/// A bracketed string list.
pub open spec fn p_strs(s: Seq<char>, i: int) -> Option<(Seq<Seq<char>>, int)> {
    if 0 <= i && i + 1 < s.len() && s[i] == '[' {
        if s[i + 1] == ']' {
            Some((Seq::empty(), i + 2))
        } else {
            match p_string(s, i + 1) {
                Some((x, j)) => if i + 1 < j && j <= s.len() {
                    match p_strs_rest(s, j) {
                        Some((xs, k)) => Some((seq![x] + xs, k)),
                        None => None,
                    }
                } else {
                    None
                },
                None => None,
            }
        }
    } else {
        None
    }
}

/// One question object.
pub open spec fn p_question(s: Seq<char>, i: int) -> Option<(QuestionView, int)> {
    match p_lit(s, i, "{\"id\":"@) {
        Some(i1) => match p_string(s, i1) {
            Some((id, i2)) => match p_lit(s, i2, ",\"title\":"@) {
                Some(i3) => match p_string(s, i3) {
                    Some((title, i4)) => match p_lit(s, i4, ",\"description\":"@) {
                        Some(i5) => match p_string(s, i5) {
                            Some((description, i6)) => match p_lit(s, i6, ",\"code\":"@) {
                                Some(i7) => match p_string(s, i7) {
                                    Some((code, i8)) => match p_lit(s, i8, ",\"options\":"@) {
                                        Some(i9) => match p_options(s, i9) {
                                            Some((options, i10)) => match p_lit(
                                                s,
                                                i10,
                                                ",\"explanations\":"@,
                                            ) {
                                                Some(i11) => match p_expls(s, i11) {
                                                    Some((explanations, i12)) => match p_lit(
                                                        s,
                                                        i12,
                                                        ",\"key_points\":"@,
                                                    ) {
                                                        Some(i13) => match p_strs(s, i13) {
                                                            Some((key_points, i14)) => match p_lit(
                                                                s,
                                                                i14,
                                                                "}"@,
                                                            ) {
                                                                Some(i15) => Some(
                                                                    (
                                                                        QuestionView {
                                                                            id,
                                                                            title,
                                                                            description,
                                                                            code,
                                                                            options,
                                                                            explanations,
                                                                            key_points,
                                                                        },
                                                                        i15,
                                                                    ),
                                                                ),
                                                                None => None,
                                                            },
                                                            None => None,
                                                        },
                                                        None => None,
                                                    },
                                                    None => None,
                                                },
                                                None => None,
                                            },
                                            None => None,
                                        },
                                        None => None,
                                    },
                                    None => None,
                                },
                                None => None,
                            },
                            None => None,
                        },
                        None => None,
                    },
                    None => None,
                },
                None => None,
            },
            None => None,
        },
        None => None,
    }
}

/// The continuation of a question list.
pub open spec fn p_questions_rest(s: Seq<char>, i: int) -> Option<(Seq<QuestionView>, int)>
    decreases s.len() - i,
{
    if i < 0 || i >= s.len() {
        None
    } else if s[i] == ']' {
        Some((Seq::empty(), i + 1))
    } else if s[i] == ',' {
        match p_question(s, i + 1) {
            Some((q, j)) => if i + 1 < j && j <= s.len() {
                match p_questions_rest(s, j) {
                    Some((qs, k)) => Some((seq![q] + qs, k)),
                    None => None,
                }
            } else {
                None
            },
            None => None,
        }
    } else {
        None
    }
}

/// A bracketed question list.
pub open spec fn p_questions(s: Seq<char>, i: int) -> Option<(Seq<QuestionView>, int)> {
    if 0 <= i && i + 1 < s.len() && s[i] == '[' {
        if s[i + 1] == ']' {
            Some((Seq::empty(), i + 2))
        } else {
            match p_question(s, i + 1) {
                Some((q, j)) => if i + 1 < j && j <= s.len() {
                    match p_questions_rest(s, j) {
                        Some((qs, k)) => Some((seq![q] + qs, k)),
                        None => None,
                    }
                } else {
                    None
                },
                None => None,
            }
        }
    } else {
        None
    }
}

/// A whole bank document.
pub open spec fn p_bank(s: Seq<char>, i: int) -> Option<(BankView, int)> {
    match p_lit(s, i, "{\"module\":"@) {
        Some(i1) => match p_string(s, i1) {
            Some((module, i2)) => match p_lit(s, i2, ",\"questions\":"@) {
                Some(i3) => match p_questions(s, i3) {
                    Some((questions, i4)) => match p_lit(s, i4, "}"@) {
                        Some(i5) => Some((BankView { module, questions }, i5)),
                        None => None,
                    },
                    None => None,
                },
                None => None,
            },
            None => None,
        },
        None => None,
    }
}


// ---------------------------------------------------------------------
// The round trip: parsing an encoded bank returns it unchanged.
// ---------------------------------------------------------------------
/// A match of a concatenation splits into matches of its parts.
proof fn lemma_matches_split(s: Seq<char>, i: int, a: Seq<char>, b: Seq<char>)
    requires
        matches_at(s, i, a + b),
    ensures
        matches_at(s, i, a),
        matches_at(s, i + a.len(), b),
{
    assert forall|k: int| 0 <= k < a.len() implies s[i + k] == #[trigger] a[k] by {
        assert((a + b)[k] == a[k]);
    }
    assert forall|k: int| 0 <= k < b.len() implies s[i + a.len() + k] == #[trigger] b[k] by {
        assert((a + b)[a.len() + k] == b[k]);
        assert(s[i + (a.len() + k)] == (a + b)[a.len() + k]);
    }
}

/// One matched character, read off at its index.
proof fn lemma_matches_at_index(s: Seq<char>, i: int, t: Seq<char>, k: int)
    requires
        matches_at(s, i, t),
        0 <= k < t.len(),
    ensures
        s[i + k] == t[k],
{
    assert(s[i + k] == t[k]);
}

/// Parsing an escaped string body followed by its closing quote recovers
/// the original characters.
proof fn lemma_p_str_body_of_esc(s: Seq<char>, i: int, x: Seq<char>)
    requires
        matches_at(s, i, esc(x) + seq!['"']),
    ensures
        p_str_body(s, i) == Some::<(Seq<char>, int)>((x, i + esc(x).len() + 1)),
    decreases x.len(),
{
    if x.len() == 0 {
        assert(esc(x) + seq!['"'] =~= seq!['"']);
        lemma_matches_at_index(s, i, esc(x) + seq!['"'], 0);
        assert(s[i] == '"');
    } else {
        let c = x[0];
        let xr = x.drop_first();
        assert(esc(x) =~= esc_char(c) + esc(xr));
        assert(esc(x) + seq!['"'] =~= esc_char(c) + (esc(xr) + seq!['"']));
        lemma_matches_split(s, i, esc_char(c), esc(xr) + seq!['"']);
        lemma_p_str_body_of_esc(s, i + esc_char(c).len(), xr);
        if c == '"' || c == '\\' {
            assert(esc_char(c) =~= seq!['\\', c]);
            lemma_matches_at_index(s, i, esc_char(c), 0);
            lemma_matches_at_index(s, i, esc_char(c), 1);
            assert(s[i] == '\\');
            assert(s[i + 1] == c);
            assert(i + 2 <= s.len());
            assert(seq![c] + xr =~= x);
        } else {
            assert(esc_char(c) =~= seq![c]);
            lemma_matches_at_index(s, i, esc_char(c), 0);
            assert(s[i] == c);
            assert(seq![c] + xr =~= x);
        }
    }
}

/// Parsing an encoded string recovers it.
proof fn lemma_p_string_of_enc(s: Seq<char>, i: int, x: Seq<char>)
    requires
        matches_at(s, i, enc_str(x)),
    ensures
        p_string(s, i) == Some::<(Seq<char>, int)>((x, i + enc_str(x).len())),
{
    assert(enc_str(x) =~= seq!['"'] + (esc(x) + seq!['"']));
    lemma_matches_split(s, i, seq!['"'], esc(x) + seq!['"']);
    lemma_matches_at_index(s, i, seq!['"'], 0);
    assert(s[i] == '"');
    lemma_p_str_body_of_esc(s, i + 1, x);
}

/// Parsing an encoded boolean recovers it.
proof fn lemma_p_bool_of_enc(s: Seq<char>, i: int, b: bool)
    requires
        matches_at(s, i, enc_bool(b)),
    ensures
        p_bool(s, i) == Some::<(bool, int)>((b, i + enc_bool(b).len())),
{
    reveal_strlit("true");
    reveal_strlit("false");
    if b {
        assert(matches_at(s, i, "true"@));
    } else {
        lemma_matches_at_index(s, i, "false"@, 0);
        assert(s[i] == 'f');
        if matches_at(s, i, "true"@) {
            lemma_matches_at_index(s, i, "true"@, 0);
            assert(s[i] == 't');
            assert(false);
        }
        assert(!matches_at(s, i, "true"@));
        assert(matches_at(s, i, "false"@));
    }
}

/// A fixed token parses wherever the text matches it.
proof fn lemma_p_lit_of_match(s: Seq<char>, i: int, t: Seq<char>)
    requires
        matches_at(s, i, t),
    ensures
        p_lit(s, i, t) == Some(i + t.len()),
{
}

/// Parsing an encoded option object recovers it.
proof fn lemma_p_option_of_enc(s: Seq<char>, i: int, o: OptionView)
    requires
        matches_at(s, i, enc_option(o)),
    ensures
        p_option(s, i) == Some::<(OptionView, int)>((o, i + enc_option(o).len())),
{
    let t1 = "{\"id\":"@;
    let t2 = ",\"content\":"@;
    let t3 = ",\"is_correct\":"@;
    let t4 = "}"@;
    let p1 = enc_str(o.id);
    let p2 = enc_str(o.content);
    let p3 = enc_bool(o.is_correct);
    let r6 = p3 + t4;
    let r5 = t3 + r6;
    let r4 = p2 + r5;
    let r3 = t2 + r4;
    let r2 = p1 + r3;
    assert(enc_option(o) =~= t1 + r2);
    lemma_matches_split(s, i, t1, r2);
    let i1: int = i + t1.len();
    lemma_matches_split(s, i1, p1, r3);
    let i2 = i1 + p1.len();
    lemma_matches_split(s, i2, t2, r4);
    let i3 = i2 + t2.len();
    lemma_matches_split(s, i3, p2, r5);
    let i4 = i3 + p2.len();
    lemma_matches_split(s, i4, t3, r6);
    let i5 = i4 + t3.len();
    lemma_matches_split(s, i5, p3, t4);
    let i6 = i5 + p3.len();
    lemma_p_string_of_enc(s, i1, o.id);
    lemma_p_string_of_enc(s, i3, o.content);
    lemma_p_bool_of_enc(s, i5, o.is_correct);
}

/// An encoded option is never empty: it opens with a brace.
proof fn lemma_enc_option_first(o: OptionView)
    ensures
        enc_option(o).len() > 0,
        enc_option(o)[0] == '{',
{
    reveal_strlit("{\"id\":");
    assert("{\"id\":"@[0] == '{');
    assert(enc_option(o)[0] == '{');
}

/// An encoded explanation entry is never empty: it opens with a quote.
proof fn lemma_enc_expl_first(e: (Seq<char>, Seq<char>))
    ensures
        enc_expl(e).len() > 0,
        enc_expl(e)[0] == '"',
{
    assert(enc_str(e.0)[0] == '"');
    assert(enc_expl(e)[0] == '"');
}

/// An encoded string is never empty: it opens with a quote.
proof fn lemma_enc_str_first(x: Seq<char>)
    ensures
        enc_str(x).len() > 0,
        enc_str(x)[0] == '"',
{
    assert(enc_str(x)[0] == '"');
}

/// Parsing an encoded explanation entry recovers it.
proof fn lemma_p_expl_of_enc(s: Seq<char>, i: int, e: (Seq<char>, Seq<char>))
    requires
        matches_at(s, i, enc_expl(e)),
    ensures
        p_expl(s, i) == Some::<((Seq<char>, Seq<char>), int)>((e, i + enc_expl(e).len())),
{
    let p1 = enc_str(e.0);
    let p2 = enc_str(e.1);
    assert(enc_expl(e) =~= p1 + (seq![':'] + p2));
    lemma_matches_split(s, i, p1, seq![':'] + p2);
    let i1 = i + p1.len();
    lemma_matches_split(s, i1, seq![':'], p2);
    lemma_p_string_of_enc(s, i, e.0);
    lemma_p_string_of_enc(s, i1 + 1, e.1);
    assert((e.0, e.1) == e);
}

/// Parsing the encoded continuation of a list returns exactly its
/// elements.
proof fn lemma_p_options_rest_of_enc(s: Seq<char>, i: int, xs: Seq<OptionView>)
    requires
        matches_at(s, i, enc_options_rest(xs) + seq![']']),
    ensures
        p_options_rest(s, i) == Some::<(Seq<OptionView>, int)>((xs, i + enc_options_rest(xs).len() + 1)),
    decreases xs.len(),
{
    if xs.len() == 0 {
        assert(enc_options_rest(xs) + seq![']'] =~= seq![']']);
        lemma_matches_at_index(s, i, seq![']'], 0);
        assert(s[i] == ']');
    } else {
        let e0 = enc_option(xs[0]);
        let r0 = enc_options_rest(xs.drop_first());
        assert(enc_options_rest(xs) + seq![']'] =~= seq![','] + (e0 + (r0 + seq![']'])));
        lemma_matches_split(s, i, seq![','], e0 + (r0 + seq![']']));
        lemma_matches_split(s, i + 1, e0, r0 + seq![']']);
        lemma_matches_at_index(s, i, seq![','], 0);
        assert(s[i] == ',');
        assert(s[i] != ']' && s[i] != '}');
        lemma_p_option_of_enc(s, i + 1, xs[0]);
        lemma_p_options_rest_of_enc(s, i + 1 + e0.len(), xs.drop_first());
        lemma_enc_option_first(xs[0]);
        assert(e0.len() > 0);
        assert(seq![xs[0]] + xs.drop_first() =~= xs);
    }
}

/// Parsing an encoded list returns exactly its elements.
proof fn lemma_p_options_of_enc(s: Seq<char>, i: int, xs: Seq<OptionView>)
    requires
        matches_at(s, i, enc_option_list(xs)),
    ensures
        p_options(s, i) == Some::<(Seq<OptionView>, int)>((xs, i + enc_option_list(xs).len())),
{
    if xs.len() == 0 {
        lemma_matches_at_index(s, i, seq!['[', ']'], 0);
        lemma_matches_at_index(s, i, seq!['[', ']'], 1);
        assert(s[i] == '[');
        assert(s[i + 1] == ']');
    } else {
        let e0 = enc_option(xs[0]);
        let r0 = enc_options_rest(xs.drop_first());
        assert(enc_option_list(xs) =~= seq!['['] + (e0 + (r0 + seq![']'])));
        lemma_matches_split(s, i, seq!['['], e0 + (r0 + seq![']']));
        lemma_matches_split(s, i + 1, e0, r0 + seq![']']);
        lemma_matches_at_index(s, i, seq!['['], 0);
        assert(s[i] == '[');
        lemma_enc_option_first(xs[0]);
        assert(e0.len() > 0);
        lemma_matches_at_index(s, i + 1, e0, 0);
        assert(s[i + 1] == e0[0]);
        assert(s[i + 1] != ']');
        lemma_p_option_of_enc(s, i + 1, xs[0]);
        lemma_p_options_rest_of_enc(s, i + 1 + e0.len(), xs.drop_first());
        assert(seq![xs[0]] + xs.drop_first() =~= xs);
    }
}

/// Parsing the encoded continuation of a list returns exactly its
/// elements.
proof fn lemma_p_expls_rest_of_enc(s: Seq<char>, i: int, xs: Seq<(Seq<char>, Seq<char>)>)
    requires
        matches_at(s, i, enc_expls_rest(xs) + seq!['}']),
    ensures
        p_expls_rest(s, i) == Some::<(Seq<(Seq<char>, Seq<char>)>, int)>((xs, i + enc_expls_rest(xs).len() + 1)),
    decreases xs.len(),
{
    if xs.len() == 0 {
        assert(enc_expls_rest(xs) + seq!['}'] =~= seq!['}']);
        lemma_matches_at_index(s, i, seq!['}'], 0);
        assert(s[i] == '}');
    } else {
        let e0 = enc_expl(xs[0]);
        let r0 = enc_expls_rest(xs.drop_first());
        assert(enc_expls_rest(xs) + seq!['}'] =~= seq![','] + (e0 + (r0 + seq!['}'])));
        lemma_matches_split(s, i, seq![','], e0 + (r0 + seq!['}']));
        lemma_matches_split(s, i + 1, e0, r0 + seq!['}']);
        lemma_matches_at_index(s, i, seq![','], 0);
        assert(s[i] == ',');
        assert(s[i] != ']' && s[i] != '}');
        lemma_p_expl_of_enc(s, i + 1, xs[0]);
        lemma_p_expls_rest_of_enc(s, i + 1 + e0.len(), xs.drop_first());
        lemma_enc_expl_first(xs[0]);
        assert(e0.len() > 0);
        assert(seq![xs[0]] + xs.drop_first() =~= xs);
    }
}

/// Parsing an encoded list returns exactly its elements.
proof fn lemma_p_expls_of_enc(s: Seq<char>, i: int, xs: Seq<(Seq<char>, Seq<char>)>)
    requires
        matches_at(s, i, enc_expl_obj(xs)),
    ensures
        p_expls(s, i) == Some::<(Seq<(Seq<char>, Seq<char>)>, int)>((xs, i + enc_expl_obj(xs).len())),
{
    if xs.len() == 0 {
        lemma_matches_at_index(s, i, seq!['{', '}'], 0);
        lemma_matches_at_index(s, i, seq!['{', '}'], 1);
        assert(s[i] == '{');
        assert(s[i + 1] == '}');
    } else {
        let e0 = enc_expl(xs[0]);
        let r0 = enc_expls_rest(xs.drop_first());
        assert(enc_expl_obj(xs) =~= seq!['{'] + (e0 + (r0 + seq!['}'])));
        lemma_matches_split(s, i, seq!['{'], e0 + (r0 + seq!['}']));
        lemma_matches_split(s, i + 1, e0, r0 + seq!['}']);
        lemma_matches_at_index(s, i, seq!['{'], 0);
        assert(s[i] == '{');
        lemma_enc_expl_first(xs[0]);
        assert(e0.len() > 0);
        lemma_matches_at_index(s, i + 1, e0, 0);
        assert(s[i + 1] == e0[0]);
        assert(s[i + 1] != '}');
        lemma_p_expl_of_enc(s, i + 1, xs[0]);
        lemma_p_expls_rest_of_enc(s, i + 1 + e0.len(), xs.drop_first());
        assert(seq![xs[0]] + xs.drop_first() =~= xs);
    }
}

/// Parsing the encoded continuation of a list returns exactly its
/// elements.
proof fn lemma_p_strs_rest_of_enc(s: Seq<char>, i: int, xs: Seq<Seq<char>>)
    requires
        matches_at(s, i, enc_strs_rest(xs) + seq![']']),
    ensures
        p_strs_rest(s, i) == Some::<(Seq<Seq<char>>, int)>((xs, i + enc_strs_rest(xs).len() + 1)),
    decreases xs.len(),
{
    if xs.len() == 0 {
        assert(enc_strs_rest(xs) + seq![']'] =~= seq![']']);
        lemma_matches_at_index(s, i, seq![']'], 0);
        assert(s[i] == ']');
    } else {
        let e0 = enc_str(xs[0]);
        let r0 = enc_strs_rest(xs.drop_first());
        assert(enc_strs_rest(xs) + seq![']'] =~= seq![','] + (e0 + (r0 + seq![']'])));
        lemma_matches_split(s, i, seq![','], e0 + (r0 + seq![']']));
        lemma_matches_split(s, i + 1, e0, r0 + seq![']']);
        lemma_matches_at_index(s, i, seq![','], 0);
        assert(s[i] == ',');
        assert(s[i] != ']' && s[i] != '}');
        lemma_p_string_of_enc(s, i + 1, xs[0]);
        lemma_p_strs_rest_of_enc(s, i + 1 + e0.len(), xs.drop_first());
        lemma_enc_str_first(xs[0]);
        assert(e0.len() > 0);
        assert(seq![xs[0]] + xs.drop_first() =~= xs);
    }
}

/// Parsing an encoded list returns exactly its elements.
proof fn lemma_p_strs_of_enc(s: Seq<char>, i: int, xs: Seq<Seq<char>>)
    requires
        matches_at(s, i, enc_str_list(xs)),
    ensures
        p_strs(s, i) == Some::<(Seq<Seq<char>>, int)>((xs, i + enc_str_list(xs).len())),
{
    if xs.len() == 0 {
        lemma_matches_at_index(s, i, seq!['[', ']'], 0);
        lemma_matches_at_index(s, i, seq!['[', ']'], 1);
        assert(s[i] == '[');
        assert(s[i + 1] == ']');
    } else {
        let e0 = enc_str(xs[0]);
        let r0 = enc_strs_rest(xs.drop_first());
        assert(enc_str_list(xs) =~= seq!['['] + (e0 + (r0 + seq![']'])));
        lemma_matches_split(s, i, seq!['['], e0 + (r0 + seq![']']));
        lemma_matches_split(s, i + 1, e0, r0 + seq![']']);
        lemma_matches_at_index(s, i, seq!['['], 0);
        assert(s[i] == '[');
        lemma_enc_str_first(xs[0]);
        assert(e0.len() > 0);
        lemma_matches_at_index(s, i + 1, e0, 0);
        assert(s[i + 1] == e0[0]);
        assert(s[i + 1] != ']');
        lemma_p_string_of_enc(s, i + 1, xs[0]);
        lemma_p_strs_rest_of_enc(s, i + 1 + e0.len(), xs.drop_first());
        assert(seq![xs[0]] + xs.drop_first() =~= xs);
    }
}

/// An encoded question is never empty: it opens with a brace.
proof fn lemma_enc_question_first(q: QuestionView)
    ensures
        enc_question(q).len() > 0,
        enc_question(q)[0] == '{',
{
    reveal_strlit("{\"id\":");
    assert("{\"id\":"@[0] == '{');
    assert(enc_question(q)[0] == '{');
}

/// Parsing an encoded question object recovers it.
#[verifier::rlimit(100)]
#[verifier::spinoff_prover]
proof fn lemma_p_question_of_enc(s: Seq<char>, i: int, q: QuestionView)
    requires
        matches_at(s, i, enc_question(q)),
    ensures
        p_question(s, i) == Some::<(QuestionView, int)>((q, i + enc_question(q).len())),
{
    let t1 = "{\"id\":"@;
    let t2 = ",\"title\":"@;
    let t3 = ",\"description\":"@;
    let t4 = ",\"code\":"@;
    let t5 = ",\"options\":"@;
    let t6 = ",\"explanations\":"@;
    let t7 = ",\"key_points\":"@;
    let t8 = "}"@;
    let p1 = enc_str(q.id);
    let p2 = enc_str(q.title);
    let p3 = enc_str(q.description);
    let p4 = enc_str(q.code);
    let p5 = enc_option_list(q.options);
    let p6 = enc_expl_obj(q.explanations);
    let p7 = enc_str_list(q.key_points);
    let r14 = p7 + t8;
    let r13 = t7 + r14;
    let r12 = p6 + r13;
    let r11 = t6 + r12;
    let r10 = p5 + r11;
    let r9 = t5 + r10;
    let r8 = p4 + r9;
    let r7 = t4 + r8;
    let r6 = p3 + r7;
    let r5 = t3 + r6;
    let r4 = p2 + r5;
    let r3 = t2 + r4;
    let r2 = p1 + r3;
    assert(enc_question(q) =~= t1 + r2);
    lemma_matches_split(s, i, t1, r2);
    let i1: int = i + t1.len();
    lemma_matches_split(s, i1, p1, r3);
    let i2 = i1 + p1.len();
    lemma_matches_split(s, i2, t2, r4);
    let i3 = i2 + t2.len();
    lemma_matches_split(s, i3, p2, r5);
    let i4 = i3 + p2.len();
    lemma_matches_split(s, i4, t3, r6);
    let i5 = i4 + t3.len();
    lemma_matches_split(s, i5, p3, r7);
    let i6 = i5 + p3.len();
    lemma_matches_split(s, i6, t4, r8);
    let i7 = i6 + t4.len();
    lemma_matches_split(s, i7, p4, r9);
    let i8 = i7 + p4.len();
    lemma_matches_split(s, i8, t5, r10);
    let i9 = i8 + t5.len();
    lemma_matches_split(s, i9, p5, r11);
    let i10 = i9 + p5.len();
    lemma_matches_split(s, i10, t6, r12);
    let i11 = i10 + t6.len();
    lemma_matches_split(s, i11, p6, r13);
    let i12 = i11 + p6.len();
    lemma_matches_split(s, i12, t7, r14);
    let i13 = i12 + t7.len();
    lemma_matches_split(s, i13, p7, t8);
    let i14 = i13 + p7.len();
    lemma_p_string_of_enc(s, i1, q.id);
    lemma_p_string_of_enc(s, i3, q.title);
    lemma_p_string_of_enc(s, i5, q.description);
    lemma_p_string_of_enc(s, i7, q.code);
    lemma_p_options_of_enc(s, i9, q.options);
    lemma_p_expls_of_enc(s, i11, q.explanations);
    lemma_p_strs_of_enc(s, i13, q.key_points);
    assert(p_lit(s, i, t1) == Some(i1));
    assert(p_string(s, i1) == Some::<(Seq<char>, int)>((q.id, i2)));
    assert(p_lit(s, i2, t2) == Some(i3));
    assert(p_string(s, i3) == Some::<(Seq<char>, int)>((q.title, i4)));
    assert(p_lit(s, i4, t3) == Some(i5));
    assert(p_string(s, i5) == Some::<(Seq<char>, int)>((q.description, i6)));
    assert(p_lit(s, i6, t4) == Some(i7));
    assert(p_string(s, i7) == Some::<(Seq<char>, int)>((q.code, i8)));
    assert(p_lit(s, i8, t5) == Some(i9));
    assert(p_options(s, i9) == Some::<(Seq<OptionView>, int)>((q.options, i10)));
    assert(p_lit(s, i10, t6) == Some(i11));
    assert(p_expls(s, i11) == Some::<(Seq<(Seq<char>, Seq<char>)>, int)>((q.explanations, i12)));
    assert(p_lit(s, i12, t7) == Some(i13));
    assert(p_strs(s, i13) == Some::<(Seq<Seq<char>>, int)>((q.key_points, i14)));
    assert(p_lit(s, i14, t8) == Some(i14 + t8.len()));
    assert((QuestionView {
        id: q.id,
        title: q.title,
        description: q.description,
        code: q.code,
        options: q.options,
        explanations: q.explanations,
        key_points: q.key_points,
    }) == q);
}

/// Parsing the encoded continuation of a list returns exactly its
/// elements.
#[verifier::rlimit(100)]
#[verifier::spinoff_prover]
proof fn lemma_p_questions_rest_of_enc(s: Seq<char>, i: int, xs: Seq<QuestionView>)
    requires
        matches_at(s, i, enc_questions_rest(xs) + seq![']']),
    ensures
        p_questions_rest(s, i) == Some::<(Seq<QuestionView>, int)>((xs, i + enc_questions_rest(xs).len() + 1)),
    decreases xs.len(),
{
    if xs.len() == 0 {
        assert(enc_questions_rest(xs) + seq![']'] =~= seq![']']);
        lemma_matches_at_index(s, i, seq![']'], 0);
        assert(s[i] == ']');
    } else {
        let e0 = enc_question(xs[0]);
        let r0 = enc_questions_rest(xs.drop_first());
        assert(enc_questions_rest(xs) + seq![']'] =~= seq![','] + (e0 + (r0 + seq![']'])));
        lemma_matches_split(s, i, seq![','], e0 + (r0 + seq![']']));
        lemma_matches_split(s, i + 1, e0, r0 + seq![']']);
        lemma_matches_at_index(s, i, seq![','], 0);
        assert(s[i] == ',');
        assert(s[i] != ']' && s[i] != '}');
        lemma_p_question_of_enc(s, i + 1, xs[0]);
        lemma_p_questions_rest_of_enc(s, i + 1 + e0.len(), xs.drop_first());
        lemma_enc_question_first(xs[0]);
        assert(e0.len() > 0);
        assert(seq![xs[0]] + xs.drop_first() =~= xs);
    }
}

/// Parsing an encoded list returns exactly its elements.
#[verifier::rlimit(100)]
#[verifier::spinoff_prover]
proof fn lemma_p_questions_of_enc(s: Seq<char>, i: int, xs: Seq<QuestionView>)
    requires
        matches_at(s, i, enc_question_list(xs)),
    ensures
        p_questions(s, i) == Some::<(Seq<QuestionView>, int)>((xs, i + enc_question_list(xs).len())),
{
    if xs.len() == 0 {
        lemma_matches_at_index(s, i, seq!['[', ']'], 0);
        lemma_matches_at_index(s, i, seq!['[', ']'], 1);
        assert(s[i] == '[');
        assert(s[i + 1] == ']');
    } else {
        let e0 = enc_question(xs[0]);
        let r0 = enc_questions_rest(xs.drop_first());
        assert(enc_question_list(xs) =~= seq!['['] + (e0 + (r0 + seq![']'])));
        lemma_matches_split(s, i, seq!['['], e0 + (r0 + seq![']']));
        lemma_matches_split(s, i + 1, e0, r0 + seq![']']);
        lemma_matches_at_index(s, i, seq!['['], 0);
        assert(s[i] == '[');
        lemma_enc_question_first(xs[0]);
        assert(e0.len() > 0);
        lemma_matches_at_index(s, i + 1, e0, 0);
        assert(s[i + 1] == e0[0]);
        assert(s[i + 1] != ']');
        lemma_p_question_of_enc(s, i + 1, xs[0]);
        lemma_p_questions_rest_of_enc(s, i + 1 + e0.len(), xs.drop_first());
        assert(seq![xs[0]] + xs.drop_first() =~= xs);
    }
}

/// The round trip is lossless: parsing the encoded form of any bank
/// returns exactly that bank, every identifier, correctness flag and
/// explanation key included, consuming the whole document.
#[verifier::rlimit(100)]
#[verifier::spinoff_prover]
pub proof fn lemma_bank_roundtrip(b: BankView)
    ensures
        p_bank(enc_bank(b), 0) == Some::<(BankView, int)>((b, enc_bank(b).len() as int)),
{
    let s = enc_bank(b);
    assert(matches_at(s, 0, s));
    let t1 = "{\"module\":"@;
    let t2 = ",\"questions\":"@;
    let t3 = "}"@;
    let p1 = enc_str(b.module);
    let p2 = enc_question_list(b.questions);
    let r4 = p2 + t3;
    let r3 = t2 + r4;
    let r2 = p1 + r3;
    assert(enc_bank(b) =~= t1 + r2);
    lemma_matches_split(s, 0, t1, r2);
    let i1: int = 0 + t1.len() as int;
    lemma_matches_split(s, i1, p1, r3);
    let i2 = i1 + p1.len();
    lemma_matches_split(s, i2, t2, r4);
    let i3 = i2 + t2.len();
    lemma_matches_split(s, i3, p2, t3);
    let i4 = i3 + p2.len();
    lemma_p_string_of_enc(s, i1, b.module);
    lemma_p_questions_of_enc(s, i3, b.questions);
    assert(p_lit(s, 0, t1) == Some(i1));
    assert(p_string(s, i1) == Some::<(Seq<char>, int)>((b.module, i2)));
    assert(p_lit(s, i2, t2) == Some(i3));
    assert(p_questions(s, i3) == Some::<(Seq<QuestionView>, int)>((b.questions, i4)));
    assert(p_lit(s, i4, t3) == Some(i4 + t3.len()));
    assert((BankView { module: b.module, questions: b.questions }) == b);
}


// ---------------------------------------------------------------------
// The executable decoder.
// ---------------------------------------------------------------------
/// Consume a fixed token, or report that the text does not hold it here.
fn expect_token(v: &Vec<char>, i: usize, t: &str) -> (r: Option<usize>)
    ensures
        match r {
            Some(j) => p_lit(v@, i as int, t@) == Some(j as int) && j <= v.len(),
            None => p_lit(v@, i as int, t@) is None,
        },
{
    let tc = string_to_chars(t);
    if tc.len() > v.len() || i > v.len() - tc.len() {
        proof {
            assert(!matches_at(v@, i as int, t@));
        }
        return None;
    }
    let mut k: usize = 0;
    while k < tc.len()
        invariant
            k <= tc.len(),
            tc@ == t@,
            i + tc.len() <= v.len(),
            forall|x: int| 0 <= x < k ==> v@[i + x] == #[trigger] t@[x],
        decreases tc.len() - k,
    {
        if v[i + k] != tc[k] {
            proof {
                assert(v@[i + k as int] != t@[k as int]);
                assert(!matches_at(v@, i as int, t@));
            }
            return None;
        }
        k += 1;
    }
    proof {
        assert(matches_at(v@, i as int, t@));
    }
    Some(i + tc.len())
}

/// Parse a quoted string, undoing the escapes.
fn parse_string_exec(v: &Vec<char>, i: usize) -> (r: Option<(String, usize)>)
    ensures
        match r {
            Some(p) => p_string(v@, i as int) == Some::<(Seq<char>, int)>((p.0@, p.1 as int))
                && p.1 <= v.len(),
            None => p_string(v@, i as int) is None,
        },
{
    if i >= v.len() {
        return None;
    }
    if v[i] != '"' {
        return None;
    }
    let mut acc: Vec<char> = Vec::new();
    let mut j: usize = i + 1;
    loop
        invariant
            i + 1 <= j <= v.len(),
            i < v.len(),
            v@[i as int] == '"',
            match p_str_body(v@, j as int) {
                Some(p) => p_str_body(v@, i + 1) == Some::<(Seq<char>, int)>((acc@ + p.0, p.1)),
                None => p_str_body(v@, i + 1) is None,
            },
        decreases v.len() - j,
    {
        if j >= v.len() {
            return None;
        }
        let c = v[j];
        if c == '"' {
            proof {
                assert(acc@ + Seq::<char>::empty() =~= acc@);
            }
            let out = chars_to_string(&acc);
            return Some((out, j + 1));
        } else if c == '\\' {
            if v.len() - j >= 2 {
                let ghost acc0 = acc@;
                acc.push(v[j + 1]);
                proof {
                    if p_str_body(v@, j + 2) is Some {
                        let p = p_str_body(v@, j + 2)->Some_0;
                        assert((acc0 + seq![v@[j + 1]]) + p.0 =~= acc0 + (seq![v@[j + 1]] + p.0));
                        assert(acc@ =~= acc0 + seq![v@[j + 1]]);
                    }
                }
                j += 2;
            } else {
                return None;
            }
        } else {
            let ghost acc0 = acc@;
            acc.push(c);
            proof {
                if p_str_body(v@, j + 1) is Some {
                    let p = p_str_body(v@, j + 1)->Some_0;
                    assert((acc0 + seq![v@[j as int]]) + p.0 =~= acc0 + (seq![v@[j as int]] + p.0));
                    assert(acc@ =~= acc0 + seq![v@[j as int]]);
                }
            }
            j += 1;
        }
    }
}

/// Parse a boolean literal.
fn parse_bool_exec(v: &Vec<char>, i: usize) -> (r: Option<(bool, usize)>)
    ensures
        match r {
            Some(p) => p_bool(v@, i as int) == Some::<(bool, int)>((p.0, p.1 as int)) && p.1
                <= v.len(),
            None => p_bool(v@, i as int) is None,
        },
{
    proof {
        reveal_strlit("true");
        reveal_strlit("false");
    }
    match expect_token(v, i, "true") {
        Some(j) => Some((true, j)),
        None => match expect_token(v, i, "false") {
            Some(j) => Some((false, j)),
            None => None,
        },
    }
}

/// Parse one option object.
fn parse_option_exec(v: &Vec<char>, i: usize) -> (r: Option<(QuestionOption, usize)>)
    ensures
        match r {
            Some(p) => p_option(v@, i as int) == Some::<(OptionView, int)>((p.0@, p.1 as int))
                && p.1 <= v.len(),
            None => p_option(v@, i as int) is None,
        },
{
    let i1 = match expect_token(v, i, "{\"id\":") {
        Some(j) => j,
        None => {
            return None;
        },
    };
    let (id, i2) = match parse_string_exec(v, i1) {
        Some(p) => p,
        None => {
            return None;
        },
    };
    let i3 = match expect_token(v, i2, ",\"content\":") {
        Some(j) => j,
        None => {
            return None;
        },
    };
    let (content, i4) = match parse_string_exec(v, i3) {
        Some(p) => p,
        None => {
            return None;
        },
    };
    let i5 = match expect_token(v, i4, ",\"is_correct\":") {
        Some(j) => j,
        None => {
            return None;
        },
    };
    let (b, i6) = match parse_bool_exec(v, i5) {
        Some(p) => p,
        None => {
            return None;
        },
    };
    let i7 = match expect_token(v, i6, "}") {
        Some(j) => j,
        None => {
            return None;
        },
    };
    Some((QuestionOption { id, content, is_correct: b }, i7))
}

/// Parse a bracketed option list.
fn parse_options_exec(v: &Vec<char>, i: usize) -> (r: Option<(Vec<QuestionOption>, usize)>)
    ensures
        match r {
            Some(p) => p_options(v@, i as int) == Some::<(Seq<OptionView>, int)>((
                p.0.deep_view(),
                p.1 as int,
            )) && p.1 <= v.len(),
            None => p_options(v@, i as int) is None,
        },
{
    if i >= v.len() || v.len() - i < 2 {
        return None;
    }
    if v[i] != '[' {
        return None;
    }
    if v[i + 1] == ']' {
        let out: Vec<QuestionOption> = Vec::new();
        proof {
            assert(out.deep_view() =~= Seq::<OptionView>::empty());
        }
        return Some((out, i + 2));
    }
    let (first, j0) = match parse_option_exec(v, i + 1) {
        Some(p) => p,
        None => {
            return None;
        },
    };
    if j0 <= i + 1 {
        return None;
    }
    let mut acc: Vec<QuestionOption> = Vec::new();
    acc.push(first);
    let mut j: usize = j0;
    proof {
        assert(acc.deep_view() =~= seq![first.deep_view()]);
    }
    loop
        invariant
            j <= v.len(),
            i + 1 < v.len(),
            v@[i as int] == '[',
            v@[i + 1] != ']',
            match p_options_rest(v@, j as int) {
                Some(p) => p_options(v@, i as int) == Some::<(Seq<OptionView>, int)>((
                    acc.deep_view() + p.0,
                    p.1,
                )),
                None => p_options(v@, i as int) is None,
            },
        decreases v.len() - j,
    {
        if j >= v.len() {
            return None;
        }
        if v[j] == ']' {
            proof {
                assert(acc.deep_view() + Seq::<OptionView>::empty() =~= acc.deep_view());
            }
            return Some((acc, j + 1));
        }
        if v[j] != ',' {
            return None;
        }
        let (next, j2) = match parse_option_exec(v, j + 1) {
            Some(p) => p,
            None => {
                return None;
            },
        };
        if j2 <= j + 1 {
            return None;
        }
        let ghost acc0 = acc.deep_view();
        acc.push(next);
        proof {
            assert(acc.deep_view() =~= acc0.push(next.deep_view()));
            if p_options_rest(v@, j2 as int) is Some {
                let p = p_options_rest(v@, j2 as int)->Some_0;
                assert((acc0 + (seq![next.deep_view()] + p.0)) =~= (acc0.push(next.deep_view())
                    + p.0));
            }
        }
        j = j2;
    }
}

/// Parse one explanation entry.
fn parse_expl_exec(v: &Vec<char>, i: usize) -> (r: Option<(Explanation, usize)>)
    ensures
        match r {
            Some(p) => p_expl(v@, i as int) == Some::<((Seq<char>, Seq<char>), int)>((
                p.0@,
                p.1 as int,
            )) && p.1 <= v.len(),
            None => p_expl(v@, i as int) is None,
        },
{
    let (key, i1) = match parse_string_exec(v, i) {
        Some(p) => p,
        None => {
            return None;
        },
    };
    proof {
        reveal_strlit(":");
        assert(":"@ =~= seq![':']);
    }
    let i2 = match expect_token(v, i1, ":") {
        Some(j) => j,
        None => {
            return None;
        },
    };
    let (text, i3) = match parse_string_exec(v, i2) {
        Some(p) => p,
        None => {
            return None;
        },
    };
    Some((Explanation { option_id: key, text }, i3))
}

/// Parse a braced explanation object.
fn parse_expls_exec(v: &Vec<char>, i: usize) -> (r: Option<(Vec<Explanation>, usize)>)
    ensures
        match r {
            Some(p) => p_expls(v@, i as int) == Some::<(Seq<(Seq<char>, Seq<char>)>, int)>((
                p.0.deep_view(),
                p.1 as int,
            )) && p.1 <= v.len(),
            None => p_expls(v@, i as int) is None,
        },
{
    if i >= v.len() || v.len() - i < 2 {
        return None;
    }
    if v[i] != '{' {
        return None;
    }
    if v[i + 1] == '}' {
        let out: Vec<Explanation> = Vec::new();
        proof {
            assert(out.deep_view() =~= Seq::<(Seq<char>, Seq<char>)>::empty());
        }
        return Some((out, i + 2));
    }
    let (first, j0) = match parse_expl_exec(v, i + 1) {
        Some(p) => p,
        None => {
            return None;
        },
    };
    if j0 <= i + 1 {
        return None;
    }
    let mut acc: Vec<Explanation> = Vec::new();
    acc.push(first);
    let mut j: usize = j0;
    proof {
        assert(acc.deep_view() =~= seq![first.deep_view()]);
    }
    loop
        invariant
            j <= v.len(),
            i + 1 < v.len(),
            v@[i as int] == '{',
            v@[i + 1] != '}',
            match p_expls_rest(v@, j as int) {
                Some(p) => p_expls(v@, i as int) == Some::<(Seq<(Seq<char>, Seq<char>)>, int)>((
                    acc.deep_view() + p.0,
                    p.1,
                )),
                None => p_expls(v@, i as int) is None,
            },
        decreases v.len() - j,
    {
        if j >= v.len() {
            return None;
        }
        if v[j] == '}' {
            proof {
                assert(acc.deep_view() + Seq::<(Seq<char>, Seq<char>)>::empty() =~= acc.deep_view());
            }
            return Some((acc, j + 1));
        }
        if v[j] != ',' {
            return None;
        }
        let (next, j2) = match parse_expl_exec(v, j + 1) {
            Some(p) => p,
            None => {
                return None;
            },
        };
        if j2 <= j + 1 {
            return None;
        }
        let ghost acc0 = acc.deep_view();
        acc.push(next);
        proof {
            assert(acc.deep_view() =~= acc0.push(next.deep_view()));
            if p_expls_rest(v@, j2 as int) is Some {
                let p = p_expls_rest(v@, j2 as int)->Some_0;
                assert((acc0 + (seq![next.deep_view()] + p.0)) =~= (acc0.push(next.deep_view())
                    + p.0));
            }
        }
        j = j2;
    }
}

/// Wrap a parsed string so collections of strings share the element shape.
fn parse_keypoint_exec(v: &Vec<char>, i: usize) -> (r: Option<(String, usize)>)
    ensures
        match r {
            Some(p) => p_string(v@, i as int) == Some::<(Seq<char>, int)>((p.0@, p.1 as int))
                && p.1 <= v.len(),
            None => p_string(v@, i as int) is None,
        },
{
    parse_string_exec(v, i)
}

/// Parse a bracketed string list.
fn parse_strs_exec(v: &Vec<char>, i: usize) -> (r: Option<(Vec<String>, usize)>)
    ensures
        match r {
            Some(p) => p_strs(v@, i as int) == Some::<(Seq<Seq<char>>, int)>((
                p.0.deep_view(),
                p.1 as int,
            )) && p.1 <= v.len(),
            None => p_strs(v@, i as int) is None,
        },
{
    if i >= v.len() || v.len() - i < 2 {
        return None;
    }
    if v[i] != '[' {
        return None;
    }
    if v[i + 1] == ']' {
        let out: Vec<String> = Vec::new();
        proof {
            assert(out.deep_view() =~= Seq::<Seq<char>>::empty());
        }
        return Some((out, i + 2));
    }
    let (first, j0) = match parse_keypoint_exec(v, i + 1) {
        Some(p) => p,
        None => {
            return None;
        },
    };
    if j0 <= i + 1 {
        return None;
    }
    let mut acc: Vec<String> = Vec::new();
    acc.push(first);
    let mut j: usize = j0;
    proof {
        assert(acc.deep_view() =~= seq![first.deep_view()]);
    }
    loop
        invariant
            j <= v.len(),
            i + 1 < v.len(),
            v@[i as int] == '[',
            v@[i + 1] != ']',
            match p_strs_rest(v@, j as int) {
                Some(p) => p_strs(v@, i as int) == Some::<(Seq<Seq<char>>, int)>((
                    acc.deep_view() + p.0,
                    p.1,
                )),
                None => p_strs(v@, i as int) is None,
            },
        decreases v.len() - j,
    {
        if j >= v.len() {
            return None;
        }
        if v[j] == ']' {
            proof {
                assert(acc.deep_view() + Seq::<Seq<char>>::empty() =~= acc.deep_view());
            }
            return Some((acc, j + 1));
        }
        if v[j] != ',' {
            return None;
        }
        let (next, j2) = match parse_keypoint_exec(v, j + 1) {
            Some(p) => p,
            None => {
                return None;
            },
        };
        if j2 <= j + 1 {
            return None;
        }
        let ghost acc0 = acc.deep_view();
        acc.push(next);
        proof {
            assert(acc.deep_view() =~= acc0.push(next.deep_view()));
            if p_strs_rest(v@, j2 as int) is Some {
                let p = p_strs_rest(v@, j2 as int)->Some_0;
                assert((acc0 + (seq![next.deep_view()] + p.0)) =~= (acc0.push(next.deep_view())
                    + p.0));
            }
        }
        j = j2;
    }
}

/// Parse one question object.
#[verifier::rlimit(100)]
#[verifier::spinoff_prover]
fn parse_question_exec(v: &Vec<char>, i: usize) -> (r: Option<(Question, usize)>)
    ensures
        match r {
            Some(p) => p_question(v@, i as int) == Some::<(QuestionView, int)>((
                p.0@,
                p.1 as int,
            )) && p.1 <= v.len(),
            None => p_question(v@, i as int) is None,
        },
{
    let i1 = match expect_token(v, i, "{\"id\":") {
        Some(j) => j,
        None => {
            return None;
        },
    };
    let (id, i2) = match parse_string_exec(v, i1) {
        Some(p) => p,
        None => {
            return None;
        },
    };
    let i3 = match expect_token(v, i2, ",\"title\":") {
        Some(j) => j,
        None => {
            return None;
        },
    };
    let (title, i4) = match parse_string_exec(v, i3) {
        Some(p) => p,
        None => {
            return None;
        },
    };
    let i5 = match expect_token(v, i4, ",\"description\":") {
        Some(j) => j,
        None => {
            return None;
        },
    };
    let (description, i6) = match parse_string_exec(v, i5) {
        Some(p) => p,
        None => {
            return None;
        },
    };
    let i7 = match expect_token(v, i6, ",\"code\":") {
        Some(j) => j,
        None => {
            return None;
        },
    };
    let (code, i8) = match parse_string_exec(v, i7) {
        Some(p) => p,
        None => {
            return None;
        },
    };
    let i9 = match expect_token(v, i8, ",\"options\":") {
        Some(j) => j,
        None => {
            return None;
        },
    };
    let (options, i10) = match parse_options_exec(v, i9) {
        Some(p) => p,
        None => {
            return None;
        },
    };
    let i11 = match expect_token(v, i10, ",\"explanations\":") {
        Some(j) => j,
        None => {
            return None;
        },
    };
    let (explanations, i12) = match parse_expls_exec(v, i11) {
        Some(p) => p,
        None => {
            return None;
        },
    };
    let i13 = match expect_token(v, i12, ",\"key_points\":") {
        Some(j) => j,
        None => {
            return None;
        },
    };
    let (key_points, i14) = match parse_strs_exec(v, i13) {
        Some(p) => p,
        None => {
            return None;
        },
    };
    let i15 = match expect_token(v, i14, "}") {
        Some(j) => j,
        None => {
            return None;
        },
    };
    Some((Question { id, title, description, code, options, explanations, key_points }, i15))
}

/// Parse a bracketed question list.
fn parse_questions_exec(v: &Vec<char>, i: usize) -> (r: Option<(Vec<Question>, usize)>)
    ensures
        match r {
            Some(p) => p_questions(v@, i as int) == Some::<(Seq<QuestionView>, int)>((
                p.0.deep_view(),
                p.1 as int,
            )) && p.1 <= v.len(),
            None => p_questions(v@, i as int) is None,
        },
{
    if i >= v.len() || v.len() - i < 2 {
        return None;
    }
    if v[i] != '[' {
        return None;
    }
    if v[i + 1] == ']' {
        let out: Vec<Question> = Vec::new();
        proof {
            assert(out.deep_view() =~= Seq::<QuestionView>::empty());
        }
        return Some((out, i + 2));
    }
    let (first, j0) = match parse_question_exec(v, i + 1) {
        Some(p) => p,
        None => {
            return None;
        },
    };
    if j0 <= i + 1 {
        return None;
    }
    let mut acc: Vec<Question> = Vec::new();
    acc.push(first);
    let mut j: usize = j0;
    proof {
        assert(acc.deep_view() =~= seq![first.deep_view()]);
    }
    loop
        invariant
            j <= v.len(),
            i + 1 < v.len(),
            v@[i as int] == '[',
            v@[i + 1] != ']',
            match p_questions_rest(v@, j as int) {
                Some(p) => p_questions(v@, i as int) == Some::<(Seq<QuestionView>, int)>((
                    acc.deep_view() + p.0,
                    p.1,
                )),
                None => p_questions(v@, i as int) is None,
            },
        decreases v.len() - j,
    {
        if j >= v.len() {
            return None;
        }
        if v[j] == ']' {
            proof {
                assert(acc.deep_view() + Seq::<QuestionView>::empty() =~= acc.deep_view());
            }
            return Some((acc, j + 1));
        }
        if v[j] != ',' {
            return None;
        }
        let (next, j2) = match parse_question_exec(v, j + 1) {
            Some(p) => p,
            None => {
                return None;
            },
        };
        if j2 <= j + 1 {
            return None;
        }
        let ghost acc0 = acc.deep_view();
        acc.push(next);
        proof {
            assert(acc.deep_view() =~= acc0.push(next.deep_view()));
            if p_questions_rest(v@, j2 as int) is Some {
                let p = p_questions_rest(v@, j2 as int)->Some_0;
                assert((acc0 + (seq![next.deep_view()] + p.0)) =~= (acc0.push(next.deep_view())
                    + p.0));
            }
        }
        j = j2;
    }
}

/// Parse a whole bank document; anything but one complete, well-formed
/// document yields nothing.
pub fn decode_bank(text: &str) -> (r: Option<QuestionBank>)
    ensures
        match r {
            Some(bank) => p_bank(text@, 0) == Some::<(BankView, int)>((
                bank@,
                text@.len() as int,
            )),
            None => match p_bank(text@, 0) {
                Some(p) => p.1 != text@.len(),
                None => true,
            },
        },
{
    let v = string_to_chars(text);
    let i1 = match expect_token(&v, 0, "{\"module\":") {
        Some(j) => j,
        None => {
            return None;
        },
    };
    let (module, i2) = match parse_string_exec(&v, i1) {
        Some(p) => p,
        None => {
            return None;
        },
    };
    let i3 = match expect_token(&v, i2, ",\"questions\":") {
        Some(j) => j,
        None => {
            return None;
        },
    };
    let (questions, i4) = match parse_questions_exec(&v, i3) {
        Some(p) => p,
        None => {
            return None;
        },
    };
    let i5 = match expect_token(&v, i4, "}") {
        Some(j) => j,
        None => {
            return None;
        },
    };
    if i5 != v.len() {
        return None;
    }
    Some(QuestionBank { module, questions })
}

} // verus!
