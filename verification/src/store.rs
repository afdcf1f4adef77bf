//! The question store: an in-memory mapping from a topic key to its
//! questions, with uniformly-random selection, plus the normalization that
//! turns a decorated human-facing topic label into a canonical lookup key.

use vstd::prelude::*;
use crate::rng::{pick_index, shuffle_options};
use crate::session::{
    lemma_permutation_preserves_distinct_ids, lemma_permutation_preserves_ids, AnswerPhase,
    Question, QuestionState, QuestionView, QuizSession,
};
use crate::text::{chars_to_string, str_eq, string_to_chars};

verus! {

broadcast use vstd::seq_lib::group_to_multiset_ensures;

/// One topic's questions, keyed by the topic's canonical name.
#[derive(Debug)]
pub struct TopicEntry {
    pub name: String,
    pub questions: Vec<Question>,
}

/// The mathematical image of a `TopicEntry`.
#[verifier::ext_equal]
pub ghost struct TopicEntryView {
    pub name: Seq<char>,
    pub questions: Seq<QuestionView>,
}

impl View for TopicEntry {
    type V = TopicEntryView;

    open spec fn view(&self) -> TopicEntryView {
        TopicEntryView { name: self.name@, questions: self.questions.deep_view() }
    }
}

impl DeepView for TopicEntry {
    type V = TopicEntryView;

    open spec fn deep_view(&self) -> TopicEntryView {
        self.view()
    }
}

/// Topic entries folded into a map, later entries winning; with unique
/// names this is the evident mapping.
pub open spec fn topic_map(entries: Seq<TopicEntryView>) -> Map<Seq<char>, Seq<QuestionView>>
    decreases entries.len(),
{
    if entries.len() == 0 {
        Map::empty()
    } else {
        topic_map(entries.drop_last()).insert(entries.last().name, entries.last().questions)
    }
}

/// With unique names, the folded map holds exactly the entries' names, and
/// each name maps to its entry's questions.
pub proof fn lemma_topic_map_characterization(entries: Seq<TopicEntryView>, key: Seq<char>)
    requires
        forall|i: int, j: int| 0 <= i < j < entries.len() ==> entries[i].name != entries[j].name,
    ensures
        topic_map(entries).contains_key(key) <==> exists|i: int|
            0 <= i < entries.len() && entries[i].name == key,
        forall|i: int|
            0 <= i < entries.len() && entries[i].name == key ==> topic_map(entries)[key]
                == entries[i].questions,
    decreases entries.len(),
{
    if entries.len() > 0 {
        let prefix = entries.drop_last();
        lemma_topic_map_characterization(prefix, key);
        if entries.last().name == key {
            assert(entries[entries.len() - 1].name == key);
        } else {
            if topic_map(entries).contains_key(key) {
                let i = choose|i: int| 0 <= i < prefix.len() && prefix[i].name == key;
                assert(entries[i].name == key);
            }
            if exists|i: int| 0 <= i < entries.len() && entries[i].name == key {
                let i = choose|i: int| 0 <= i < entries.len() && entries[i].name == key;
                assert(prefix[i].name == key);
            }
        }
    }
}

/// The in-memory question store.
#[derive(Debug)]
pub struct QuizEngine {
    questions: Vec<TopicEntry>,
}

impl QuizEngine {
    /// The store as a map from topic key to that topic's questions.
    pub closed spec fn topics(self) -> Map<Seq<char>, Seq<QuestionView>> {
        topic_map(self.questions.deep_view())
    }

    /// Store invariant: topic names are unique and every stored question
    /// has a workable option count.
    pub closed spec fn wf(self) -> bool {
        &&& forall|i: int, j: int|
            0 <= i < j < self.questions.len() ==> self.questions.deep_view()[i].name
                != self.questions.deep_view()[j].name
        &&& forall|i: int, j: int|
            0 <= i < self.questions.len() && 0 <= j
                < self.questions.deep_view()[i].questions.len()
                ==> (#[trigger] self.questions.deep_view()[i].questions[j]).wf()
    }

    /// An empty store.
    pub fn new() -> (r: QuizEngine)
        ensures
            r.wf(),
            r.topics() == Map::<Seq<char>, Seq<QuestionView>>::empty(),
    {
        QuizEngine { questions: Vec::new() }
    }

    /// Append a question to the topic's collection, creating the topic on
    /// first use. No deduplication and no ordering guarantee beyond
    /// appending.
    pub fn add_question_for_module(&mut self, module: &str, question: Question)
        requires
            old(self).wf(),
            question@.wf(),
        ensures
            final(self).wf(),
            final(self).topics() == old(self).topics().insert(
                module@,
                (if old(self).topics().contains_key(module@) {
                    old(self).topics()[module@]
                } else {
                    Seq::empty()
                }).push(question@),
            ),
    {
        let ghost entries0 = self.questions.deep_view();
        let ghost key = module@;
        proof {
            lemma_topic_map_characterization(entries0, key);
        }
        let found = find_topic(&self.questions, module);
        match found {
            Some(i) => {
                let mut entry = self.questions.remove(i);
                entry.questions.push(question);
                self.questions.push(entry);
                proof {
                    let entries1 = self.questions.deep_view();
                    let removed = entries0.remove(i as int);
                    assert(entries1 =~~= removed.push(
                        TopicEntryView {
                            name: key,
                            questions: entries0[i as int].questions.push(question@),
                        },
                    ));
                    assert forall|a: int, b: int| 0 <= a < b < removed.len()
                        implies removed[a].name != removed[b].name by {
                        if b < i {
                            assert(entries0[a].name != entries0[b].name);
                        } else if a < i {
                            assert(entries0[a].name != entries0[b + 1].name);
                        } else {
                            assert(entries0[a + 1].name != entries0[b + 1].name);
                        }
                    }
                    assert forall|a: int| 0 <= a < removed.len() implies removed[a].name != key by {
                        if a < i {
                            assert(entries0[a].name != entries0[i as int].name);
                        } else {
                            assert(entries0[i as int].name != entries0[a + 1].name);
                        }
                    }
                    assert forall|a: int, b: int| 0 <= a < b < entries1.len()
                        implies entries1[a].name != entries1[b].name by {
                        if b < entries1.len() - 1 {
                            assert(removed[a].name != removed[b].name);
                        } else {
                            assert(removed[a].name != key);
                        }
                    }
                    lemma_topic_map_characterization(entries1, key);
                    assert(entries1[entries1.len() - 1].name == key);
                    let m0 = topic_map(entries0);
                    let m1 = topic_map(entries1);
                    assert forall|k: Seq<char>| #[trigger] m1.contains_key(k) == m0.insert(
                        key,
                        m0[key].push(question@),
                    ).contains_key(k) && (m1.contains_key(k) ==> m1[k] == m0.insert(
                        key,
                        m0[key].push(question@),
                    )[k]) by {
                        lemma_topic_map_characterization(entries1, k);
                        lemma_topic_map_characterization(entries0, k);
                        if k == key {
                            assert(m1.contains_key(k));
                            assert(m1[k] == entries0[i as int].questions.push(question@));
                            assert(m0[key] == entries0[i as int].questions);
                        } else {
                            if m1.contains_key(k) {
                                let a = choose|a: int|
                                    0 <= a < entries1.len() && entries1[a].name == k;
                                assert(a < entries1.len() - 1);
                                if a < i {
                                    assert(entries0[a].name == k);
                                } else {
                                    assert(entries0[a + 1].name == k);
                                }
                                assert(m0.contains_key(k));
                                let b = choose|b: int|
                                    0 <= b < entries0.len() && entries0[b].name == k;
                                assert(b != i);
                                if b < i {
                                    assert(entries1[b].name == k);
                                    assert(m1[k] == entries1[b].questions);
                                    assert(entries1[b].questions == entries0[b].questions);
                                } else {
                                    assert(entries1[b - 1].name == k);
                                    assert(m1[k] == entries1[b - 1].questions);
                                    assert(entries1[b - 1].questions == entries0[b].questions);
                                }
                                assert(m0[k] == entries0[b].questions);
                            }
                            if m0.contains_key(k) {
                                let b = choose|b: int|
                                    0 <= b < entries0.len() && entries0[b].name == k;
                                assert(b != i);
                                if b < i {
                                    assert(entries1[b].name == k);
                                } else {
                                    assert(entries1[b - 1].name == k);
                                }
                                assert(m1.contains_key(k));
                            }
                        }
                    }
                    assert(m1 =~= m0.insert(key, m0[key].push(question@)));
                    assert(m0.contains_key(key));
                }
            },
            None => {
                let mut qs: Vec<Question> = Vec::new();
                qs.push(question);
                let entry = TopicEntry { name: module.to_owned(), questions: qs };
                self.questions.push(entry);
                proof {
                    let entries1 = self.questions.deep_view();
                    assert(entries1 =~~= entries0.push(
                        TopicEntryView { name: key, questions: seq![question@] },
                    ));
                    assert(entries1.drop_last() =~= entries0);
                    assert(topic_map(entries1) == topic_map(entries0).insert(
                        key,
                        seq![question@],
                    ));
                    assert(!topic_map(entries0).contains_key(key));
                    assert(Seq::<QuestionView>::empty().push(question@) =~= seq![question@]);
                    assert forall|a: int, b: int| 0 <= a < b < entries1.len()
                        implies entries1[a].name != entries1[b].name by {
                        if b < entries1.len() - 1 {
                            assert(entries0[a].name != entries0[b].name);
                        } else {
                            assert(entries0[a].name != key);
                        }
                    }
                }
            },
        }
    }

    /// Uniformly select one question of the topic this label resolves to;
    /// nothing comes back when the topic is unknown or empty, which is a
    /// graceful no-content signal, not an error. The draw is unseeded: two
    /// calls may differ.
    pub fn get_random_question(&self, module: &str) -> (r: Option<Question>)
        requires
            self.wf(),
        ensures
            ({
                let key = module_key_of(module@);
                &&& (r is Some <==> self.topics().contains_key(key) && self.topics()[key].len()
                    > 0)
                &&& match r {
                    Some(q) => self.topics()[key].contains(q@) && q@.wf(),
                    None => true,
                }
            }),
    {
        let module_key = extract_module_key(module);
        let ghost key = module_key_of(module@);
        proof {
            lemma_topic_map_characterization(self.questions.deep_view(), key);
        }
        let found = find_topic(&self.questions, module_key.as_str());
        match found {
            Some(i) => {
                let qs = &self.questions[i].questions;
                if qs.len() == 0 {
                    proof {
                        assert(self.topics()[key].len() == 0);
                    }
                    None
                } else {
                    let j = pick_index(qs.len());
                    let q = qs[j].clone();
                    proof {
                        assert(self.questions.deep_view()[i as int].questions[j as int] == q@);
                        assert(self.topics()[key] == self.questions.deep_view()[
                            i as int
                        ].questions);
                        assert(self.topics()[key].contains(q@));
                    }
                    Some(q)
                }
            },
            None => None,
        }
    }

    /// Draw a random question for this topic label and open a fresh session
    /// on it: options shuffled into a session-specific order, nothing
    /// selected, first-attempt phase. Nothing comes back when the topic has
    /// no questions.
    pub fn start_quiz_session(&self, module: &str) -> (r: Option<QuizSession>)
        requires
            self.wf(),
        ensures
            ({
                let key = module_key_of(module@);
                &&& (r is Some <==> self.topics().contains_key(key) && self.topics()[key].len()
                    > 0)
                &&& match r {
                    Some(session) => {
                        &&& session.wf()
                        &&& session.module@ == module@
                        &&& !session.completed
                        &&& session.attempt_count == 0
                        &&& session.question_state.phase == AnswerPhase::FirstAttempt
                        &&& session.question_state.user_selections.len() == 0
                        &&& session.question_state.current_focus == 0
                        &&& match session.current_question {
                            Some(q) => {
                                &&& exists|i: int|
                                    0 <= i < self.topics()[key].len() && same_up_to_option_order(
                                        #[trigger] self.topics()[key][i],
                                        q@,
                                    )
                                &&& session.question_state.displayed_options.deep_view()
                                    .to_multiset() == q@.options.to_multiset()
                                &&& crate::session::ids_of(
                                    session.question_state.displayed_options.deep_view(),
                                ) == crate::session::ids_of(q@.options)
                            },
                            None => false,
                        }
                    },
                    None => true,
                }
            }),
    {
        let picked = self.get_random_question(module);
        match picked {
            Some(mut question) => {
                let ghost picked_view = question@;
                shuffle_options(&mut question.options);
                proof {
                    lemma_permutation_preserves_ids(
                        question.options.deep_view(),
                        picked_view.options,
                    );
                    lemma_permutation_preserves_distinct_ids(
                        question.options.deep_view(),
                        picked_view.options,
                    );
                    assert(same_up_to_option_order(picked_view, question@));
                    assert(question@.wf());
                }
                let question_state = QuestionState::new(&question);
                let current = question.clone();
                Some(
                    QuizSession {
                        module: module.to_owned(),
                        current_question: Some(current),
                        question_state,
                        attempt_count: 0,
                        completed: false,
                    },
                )
            },
            None => None,
        }
    }
}

/// Equal questions up to the order of their options: identity, texts,
/// explanations and key points agree, and the options agree as a multiset.
pub open spec fn same_up_to_option_order(a: QuestionView, b: QuestionView) -> bool {
    &&& a.id == b.id
    &&& a.title == b.title
    &&& a.description == b.description
    &&& a.code == b.code
    &&& a.options.to_multiset() == b.options.to_multiset()
    &&& a.explanations == b.explanations
    &&& a.key_points == b.key_points
}

/// The position of the topic entry with this name, if any.
fn find_topic(v: &Vec<TopicEntry>, name: &str) -> (r: Option<usize>)
    ensures
        match r {
            Some(i) => i < v.len() && v.deep_view()[i as int].name == name@,
            None => forall|i: int| 0 <= i < v.len() ==> v.deep_view()[i].name != name@,
        },
{
    let mut k: usize = 0;
    while k < v.len()
        invariant
            k <= v.len(),
            forall|i: int| 0 <= i < k ==> v.deep_view()[i].name != name@,
        decreases v.len() - k,
    {
        if str_eq(v[k].name.as_str(), name) {
            assert(v.deep_view()[k as int].name == name@);
            return Some(k);
        }
        k += 1;
    }
    None
}

/// A whitespace character, for splitting a topic label into tokens.
pub open spec fn is_space(c: char) -> bool {
    c == ' ' || c == '\t' || c == '\n' || c == '\r'
}

/// An ASCII decimal digit.
pub open spec fn is_digit(c: char) -> bool {
    '0' <= c && c <= '9'
}

/// One of the decorative glyphs the topic labels carry: the book, zap,
/// cross, cycle, rocket, memo, target and disk emoji.
pub open spec fn is_decorative(c: char) -> bool {
    ||| c == '\u{1f4d6}'
    ||| c == '\u{26a1}'
    ||| c == '\u{274c}'
    ||| c == '\u{1f504}'
    ||| c == '\u{1f680}'
    ||| c == '\u{1f4dd}'
    ||| c == '\u{1f3af}'
    ||| c == '\u{1f4be}'
}

/// A left-to-right split of a label: the finished tokens so far and the
/// token still being read.
pub open spec fn split_state(s: Seq<char>) -> (Seq<Seq<char>>, Seq<char>)
    decreases s.len(),
{
    if s.len() == 0 {
        (Seq::empty(), Seq::empty())
    } else {
        let (toks, cur) = split_state(s.drop_last());
        if is_space(s.last()) {
            if cur.len() > 0 {
                (toks.push(cur), Seq::empty())
            } else {
                (toks, Seq::empty())
            }
        } else {
            (toks, cur.push(s.last()))
        }
    }
}

/// The whitespace-separated tokens of a label.
pub open spec fn tokens_of(s: Seq<char>) -> Seq<Seq<char>> {
    let (toks, cur) = split_state(s);
    if cur.len() > 0 {
        toks.push(cur)
    } else {
        toks
    }
}

/// A token survives normalization if it neither starts with a digit nor
/// holds a decorative glyph; any other word token, accented letters
/// included, is kept.
pub open spec fn keep_token(t: Seq<char>) -> bool {
    &&& t.len() > 0
    &&& !is_digit(t[0])
    &&& forall|i: int| 0 <= i < t.len() ==> !is_decorative(#[trigger] t[i])
}

/// The last surviving token, if any.
pub open spec fn last_kept(toks: Seq<Seq<char>>) -> Option<Seq<char>>
    decreases toks.len(),
{
    if toks.len() == 0 {
        None
    } else if keep_token(toks.last()) {
        Some(toks.last())
    } else {
        last_kept(toks.drop_last())
    }
}

/// The canonical lookup key of a human-facing topic label: numeric
/// prefixes and decorated tokens are stripped and the last remaining word
/// survives; a label with no surviving word is its own key.
pub open spec fn module_key_of(s: Seq<char>) -> Seq<char> {
    match last_kept(tokens_of(s)) {
        Some(t) => t,
        None => s,
    }
}

/// True if this token survives normalization.
fn keep_token_exec(t: &Vec<char>) -> (r: bool)
    ensures
        r == keep_token(t@),
{
    if t.len() == 0 {
        return false;
    }
    if '0' <= t[0] && t[0] <= '9' {
        return false;
    }
    let mut k: usize = 0;
    while k < t.len()
        invariant
            k <= t.len(),
            forall|i: int| 0 <= i < k ==> !is_decorative(#[trigger] t@[i]),
        decreases t.len() - k,
    {
        let c = t[k];
        if c == '\u{1f4d6}' || c == '\u{26a1}' || c == '\u{274c}' || c == '\u{1f504}'
            || c == '\u{1f680}' || c == '\u{1f4dd}' || c == '\u{1f3af}' || c == '\u{1f4be}' {
            return false;
        }
        k += 1;
    }
    true
}

/// Normalize a topic label to its canonical lookup key.
pub fn extract_module_key(module_name: &str) -> (r: String)
    ensures
        r@ == module_key_of(module_name@),
{
    let chars = string_to_chars(module_name);
    let mut cur: Vec<char> = Vec::new();
    let mut best: Option<Vec<char>> = None;
    let mut k: usize = 0;
    while k < chars.len()
        invariant
            k <= chars.len(),
            chars@ == module_name@,
            ({
                let (toks, c) = split_state(module_name@.take(k as int));
                &&& cur@ == c
                &&& match best {
                    Some(b) => last_kept(toks) == Some(b@),
                    None => last_kept(toks) is None,
                }
            }),
        decreases chars.len() - k,
    {
        let ghost prefix = module_name@.take(k as int);
        let c = chars[k];
        proof {
            assert(module_name@.take(k + 1).drop_last() =~= prefix);
            assert(module_name@.take(k + 1).last() == module_name@[k as int]);
        }
        if c == ' ' || c == '\t' || c == '\n' || c == '\r' {
            if cur.len() > 0 {
                if keep_token_exec(&cur) {
                    best = Some(cur);
                } else {
                    let ghost (toks, _) = split_state(prefix);
                    proof {
                        assert(toks.push(cur@).drop_last() =~= toks);
                    }
                }
                cur = Vec::new();
            }
        } else {
            cur.push(c);
        }
        k += 1;
    }
    proof {
        assert(module_name@.take(chars.len() as int) =~= module_name@);
    }
    if cur.len() > 0 {
        if keep_token_exec(&cur) {
            best = Some(cur);
        } else {
            let ghost (toks, c) = split_state(module_name@);
            proof {
                assert(toks.push(cur@).drop_last() =~= toks);
            }
        }
    }
    match best {
        Some(b) => chars_to_string(&b),
        None => module_name.to_owned(),
    }
}

} // verus!
