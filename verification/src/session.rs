//! The per-question session state machine: answer options, the user's
//! selection set, keyboard focus, and the phased answer/feedback protocol.

use vstd::prelude::*;

use crate::input::UserInput;
use crate::rng::shuffle_options;

verus! {

broadcast use vstd::seq_lib::group_to_multiset_ensures;

/// One answer option: a stable identity token, display content, and the
/// ground-truth correctness flag. Identity never depends on display order.
#[derive(Debug)]
pub struct QuestionOption {
    pub id: String,
    pub content: String,
    pub is_correct: bool,
}

/// The mathematical image of a `QuestionOption`.
pub ghost struct OptionView {
    pub id: Seq<char>,
    pub content: Seq<char>,
    pub is_correct: bool,
}

impl View for QuestionOption {
    type V = OptionView;

    open spec fn view(&self) -> OptionView {
        OptionView { id: self.id@, content: self.content@, is_correct: self.is_correct }
    }
}

impl DeepView for QuestionOption {
    type V = OptionView;

    open spec fn deep_view(&self) -> OptionView {
        self.view()
    }
}

impl Clone for QuestionOption {
    fn clone(&self) -> (r: Self)
        ensures
            r@ == self@,
    {
        QuestionOption {
            id: self.id.clone(),
            content: self.content.clone(),
            is_correct: self.is_correct,
        }
    }
}

/// One entry of a question's explanation mapping: an option identity and
/// the free-text explanation shown for it.
#[derive(Debug)]
pub struct Explanation {
    pub option_id: String,
    pub text: String,
}

impl View for Explanation {
    type V = (Seq<char>, Seq<char>);

    open spec fn view(&self) -> (Seq<char>, Seq<char>) {
        (self.option_id@, self.text@)
    }
}

impl DeepView for Explanation {
    type V = (Seq<char>, Seq<char>);

    open spec fn deep_view(&self) -> (Seq<char>, Seq<char>) {
        self.view()
    }
}

impl Clone for Explanation {
    fn clone(&self) -> (r: Self)
        ensures
            r@ == self@,
    {
        Explanation { option_id: self.option_id.clone(), text: self.text.clone() }
    }
}

/// One quiz question: immutable once loaded.
#[derive(Debug)]
pub struct Question {
    pub id: String,
    pub title: String,
    pub description: String,
    pub code: String,
    pub options: Vec<QuestionOption>,
    pub explanations: Vec<Explanation>,
    pub key_points: Vec<String>,
}

/// The mathematical image of a `Question`.
#[verifier::ext_equal]
pub ghost struct QuestionView {
    pub id: Seq<char>,
    pub title: Seq<char>,
    pub description: Seq<char>,
    pub code: Seq<char>,
    pub options: Seq<OptionView>,
    pub explanations: Seq<(Seq<char>, Seq<char>)>,
    pub key_points: Seq<Seq<char>>,
}

impl View for Question {
    type V = QuestionView;

    open spec fn view(&self) -> QuestionView {
        QuestionView {
            id: self.id@,
            title: self.title@,
            description: self.description@,
            code: self.code@,
            options: self.options.deep_view(),
            explanations: self.explanations.deep_view(),
            key_points: self.key_points.deep_view(),
        }
    }
}

impl DeepView for Question {
    type V = QuestionView;

    open spec fn deep_view(&self) -> QuestionView {
        self.view()
    }
}

impl Clone for Question {
    fn clone(&self) -> (r: Self)
        ensures
            r@ == self@,
    {
        let r = Question {
            id: self.id.clone(),
            title: self.title.clone(),
            description: self.description.clone(),
            code: self.code.clone(),
            options: self.options.clone(),
            explanations: self.explanations.clone(),
            key_points: self.key_points.clone(),
        };
        proof {
            lemma_cloned_options_deep_view(self.options, r.options);
            lemma_cloned_explanations_deep_view(self.explanations, r.explanations);
            lemma_cloned_strings_deep_view(self.key_points, r.key_points);
        }
        r
    }
}

/// An elementwise-cloned option vector has the same mathematical image.
proof fn lemma_cloned_options_deep_view(a: Vec<QuestionOption>, b: Vec<QuestionOption>)
    requires
        a.len() == b.len(),
        forall|i: int| #![all_triggers] 0 <= i < a.len() ==> cloned::<QuestionOption>(a[i], b[i]),
    ensures
        a.deep_view() == b.deep_view(),
{
    assert forall|i: int| 0 <= i < a.len() implies a.deep_view()[i] == b.deep_view()[i] by {
        assert(cloned::<QuestionOption>(a[i], b[i]));
    }
    assert(a.deep_view() =~= b.deep_view());
}

/// An elementwise-cloned explanation vector has the same mathematical image.
proof fn lemma_cloned_explanations_deep_view(a: Vec<Explanation>, b: Vec<Explanation>)
    requires
        a.len() == b.len(),
        forall|i: int| #![all_triggers] 0 <= i < a.len() ==> cloned::<Explanation>(a[i], b[i]),
    ensures
        a.deep_view() == b.deep_view(),
{
    assert forall|i: int| 0 <= i < a.len() implies a.deep_view()[i] == b.deep_view()[i] by {
        assert(cloned::<Explanation>(a[i], b[i]));
    }
    assert(a.deep_view() =~= b.deep_view());
}

/// An elementwise-cloned string vector has the same mathematical image.
proof fn lemma_cloned_strings_deep_view(a: Vec<String>, b: Vec<String>)
    requires
        a.len() == b.len(),
        forall|i: int| #![all_triggers] 0 <= i < a.len() ==> cloned::<String>(a[i], b[i]),
    ensures
        a.deep_view() == b.deep_view(),
{
    assert forall|i: int| 0 <= i < a.len() implies a.deep_view()[i] == b.deep_view()[i] by {
        assert(cloned::<String>(a[i], b[i]));
    }
    assert(a.deep_view() =~= b.deep_view());
}

/// The set of identities of a sequence of options.
pub open spec fn ids_of(options: Seq<OptionView>) -> Set<Seq<char>> {
    options.map_values(|o: OptionView| o.id).to_set()
}

/// The identities whose correctness flag is true, in stored order.
pub open spec fn correct_id_seq(options: Seq<OptionView>) -> Seq<Seq<char>>
    decreases options.len(),
{
    if options.len() == 0 {
        Seq::empty()
    } else {
        let rest = correct_id_seq(options.drop_last());
        if options.last().is_correct {
            rest.push(options.last().id)
        } else {
            rest
        }
    }
}

/// The set of identities whose correctness flag is true.
pub open spec fn correct_ids_of(options: Seq<OptionView>) -> Set<Seq<char>> {
    correct_id_seq(options).to_set()
}

/// The correct-identity set holds exactly the identities of the options
/// whose correctness flag is true.
pub proof fn lemma_correct_ids_characterization(options: Seq<OptionView>, id: Seq<char>)
    ensures
        correct_ids_of(options).contains(id) <==> exists|i: int|
            0 <= i < options.len() && options[i].is_correct && options[i].id == id,
    decreases options.len(),
{
    if options.len() == 0 {
    } else {
        let prefix = options.drop_last();
        lemma_correct_ids_characterization(prefix, id);
        let cs = correct_id_seq(options);
        let cp = correct_id_seq(prefix);
        if correct_ids_of(options).contains(id) {
            let k = choose|k: int| 0 <= k < cs.len() && cs[k] == id;
            if options.last().is_correct && k == cs.len() - 1 {
                assert(options[options.len() - 1].is_correct && options[options.len() - 1].id == id);
            } else {
                assert(cp[k] == id);
                assert(correct_ids_of(prefix).contains(id));
                let i = choose|i: int|
                    0 <= i < prefix.len() && prefix[i].is_correct && prefix[i].id == id;
                assert(options[i].is_correct && options[i].id == id);
            }
        }
        if exists|i: int| 0 <= i < options.len() && options[i].is_correct && options[i].id == id {
            let i = choose|i: int| 0 <= i < options.len() && options[i].is_correct && options[i].id == id;
            if i == options.len() - 1 {
                assert(cs[cs.len() - 1] == id);
            } else {
                assert(prefix[i].is_correct && prefix[i].id == id);
                assert(correct_ids_of(prefix).contains(id));
                let k = choose|k: int| 0 <= k < cp.len() && cp[k] == id;
                assert(cs[k] == id);
            }
        }
    }
}

impl QuestionView {
    /// The option count a session can work with: non-empty (an empty
    /// option list is a load-time error, never a runtime state) and no
    /// longer than the letters A..Z can address.
    pub open spec fn size_ok(self) -> bool {
        0 < self.options.len() <= 26
    }

    /// Well-formedness of a loaded question: at least one option (an empty
    /// option list is a load-time error, never a runtime state), no more
    /// options than the letters A..Z can address, distinct option
    /// identities, and distinct explanation keys.
    pub open spec fn wf(self) -> bool {
        &&& self.size_ok()
        &&& forall|i: int, j: int|
            0 <= i < j < self.options.len() ==> self.options[i].id != self.options[j].id
        &&& forall|i: int, j: int|
            0 <= i < j < self.explanations.len() ==> self.explanations[i].0 != self.explanations[j].0
    }
}

/// The stage of the answer-escalation protocol.
#[derive(Clone, Copy, Debug, PartialEq, Eq, Structural)]
pub enum AnswerPhase {
    FirstAttempt,
    ShowingHints,
    FinalAnswer,
}

/// A direction for circular keyboard focus movement.
#[derive(Clone, Copy, Debug, PartialEq, Eq, Structural)]
pub enum FocusDirection {
    Up,
    Down,
}

/// The outcome of one interaction step of a session.
#[derive(Clone, Copy, Debug, PartialEq, Eq, Structural)]
pub enum QuizResult {
    Continue,
    Completed,
    Quit,
}

/// Mutable state of one active question: the shuffled display order, the
/// selection set, the keyboard focus, the protocol phase, the revealed
/// correctness hints, and the renderer's screen-line cache.
#[derive(Debug)]
pub struct QuestionState {
    /// The question's options permuted into a session-specific random order.
    pub displayed_options: Vec<QuestionOption>,
    /// Identities the user currently has checked; set semantics, no duplicates.
    pub user_selections: Vec<String>,
    /// Index into `displayed_options` that the keyboard cursor highlights.
    pub current_focus: usize,
    pub phase: AnswerPhase,
    /// Identity-to-correctness hints; populated once hints are shown.
    pub revealed_status: Vec<(String, bool)>,
    /// Screen line where the option area started, if known.
    pub options_start_line: Option<u16>,
    /// Whether a targeted single-line repaint is currently safe.
    pub can_use_local_redraw: bool,
    /// Per-option cached screen coordinate: an absolute row when space was
    /// ample, or a distance from the bottom edge in scroll mode.
    pub option_positions: Vec<u16>,
    /// True when vertical space was insufficient and coordinates are
    /// anchored to the bottom of the screen.
    pub scroll_mode: bool,
}

/// Flip membership of `id` in the set `s`.
pub open spec fn toggled(s: Set<Seq<char>>, id: Seq<char>) -> Set<Seq<char>> {
    if s.contains(id) {
        s.remove(id)
    } else {
        s.insert(id)
    }
}

/// A key-value list folded into a map, later entries winning.
pub open spec fn pairs_to_map(pairs: Seq<(Seq<char>, bool)>) -> Map<Seq<char>, bool>
    decreases pairs.len(),
{
    if pairs.len() == 0 {
        Map::empty()
    } else {
        pairs_to_map(pairs.drop_last()).insert(pairs.last().0, pairs.last().1)
    }
}

/// Every option identity mapped to its true correctness flag.
pub open spec fn option_status_map(options: Seq<OptionView>) -> Map<Seq<char>, bool> {
    pairs_to_map(options.map_values(|o: OptionView| (o.id, o.is_correct)))
}

impl QuestionState {
    /// The selection set: the identities currently checked.
    pub open spec fn sel_set(self) -> Set<Seq<char>> {
        self.user_selections.deep_view().to_set()
    }

    /// The revealed-correctness hints as a map.
    pub open spec fn revealed_map(self) -> Map<Seq<char>, bool> {
        pairs_to_map(self.revealed_status.deep_view())
    }

    /// State invariant: a non-empty option list of at most 26 entries with
    /// pairwise-distinct identities, a valid focus index, duplicate-free
    /// selections, and hints only once the phase has moved past the first
    /// attempt.
    pub open spec fn wf(self) -> bool {
        &&& 0 < self.displayed_options.len() <= 26
        &&& forall|i: int, j: int|
            0 <= i < j < self.displayed_options.len()
                ==> self.displayed_options.deep_view()[i].id
                != self.displayed_options.deep_view()[j].id
        &&& self.current_focus < self.displayed_options.len()
        &&& forall|i: int, j: int|
            0 <= i < j < self.user_selections.len()
                ==> self.user_selections.deep_view()[i] != self.user_selections.deep_view()[j]
        &&& self.phase == AnswerPhase::FirstAttempt ==> self.revealed_status.len() == 0
    }

    /// True if the option with this identity is currently checked.
    pub fn is_selected(&self, option_id: &String) -> (r: bool)
        ensures
            r == self.sel_set().contains(option_id@),
    {
        let mut k: usize = 0;
        while k < self.user_selections.len()
            invariant
                k <= self.user_selections.len(),
                forall|i: int| 0 <= i < k ==> self.user_selections.deep_view()[i] != option_id@,
            decreases self.user_selections.len() - k,
        {
            if self.user_selections[k] == *option_id {
                assert(self.user_selections.deep_view()[k as int] == option_id@);
                return true;
            }
            k += 1;
        }
        assert(!self.user_selections.deep_view().contains(option_id@));
        false
    }

    /// Flip membership of the option at display index `option_index` in
    /// the selection set. An out-of-range index is an invariant violation,
    /// not a runtime state: callers range-check first, and the dispatcher
    /// does.
    pub fn toggle_selection(&mut self, option_index: usize)
        requires
            old(self).wf(),
            option_index < old(self).displayed_options.len(),
        ensures
            final(self).wf(),
            final(self).sel_set() == toggled(
                old(self).sel_set(),
                old(self).displayed_options[option_index as int]@.id,
            ),
            final(self).displayed_options == old(self).displayed_options,
            final(self).current_focus == old(self).current_focus,
            final(self).phase == old(self).phase,
            final(self).revealed_status == old(self).revealed_status,
            final(self).option_positions == old(self).option_positions,
            final(self).scroll_mode == old(self).scroll_mode,
            final(self).can_use_local_redraw == old(self).can_use_local_redraw,
            final(self).options_start_line == old(self).options_start_line,
    {
        let ghost id = self.displayed_options[option_index as int]@.id;
        let ghost sels0 = self.user_selections.deep_view();
        let found = index_of_string(&self.user_selections, &self.displayed_options[option_index].id);
        match found {
            Some(k) => {
                self.user_selections.remove(k);
                proof {
                    assert(self.user_selections.deep_view() =~= sels0.remove(k as int));
                    lemma_distinct_remove_to_set(sels0, k as int);
                    assert(sels0.to_set().contains(id)) by {
                        assert(sels0[k as int] == id);
                    }
                }
            },
            None => {
                self.user_selections.push(self.displayed_options[option_index].id.clone());
                proof {
                    assert(self.user_selections.deep_view() =~= sels0.push(id));
                    assert(!sels0.to_set().contains(id));
                    lemma_distinct_push_to_set(sels0, id);
                }
            },
        }
    }

    /// Move the keyboard focus one step, circularly: up from index 0 wraps
    /// to the last index, down from the last index wraps to 0.
    pub fn move_focus(&mut self, direction: FocusDirection)
        requires
            old(self).wf(),
        ensures
            final(self).wf(),
            direction == FocusDirection::Up ==> final(self).current_focus
                == if old(self).current_focus > 0 {
                    (old(self).current_focus - 1) as int
                } else {
                    old(self).displayed_options.len() - 1
                },
            direction == FocusDirection::Down ==> final(self).current_focus
                == (old(self).current_focus + 1) % (old(self).displayed_options.len() as int),
            final(self).displayed_options == old(self).displayed_options,
            final(self).user_selections == old(self).user_selections,
            final(self).phase == old(self).phase,
            final(self).revealed_status == old(self).revealed_status,
            final(self).option_positions == old(self).option_positions,
            final(self).scroll_mode == old(self).scroll_mode,
            final(self).can_use_local_redraw == old(self).can_use_local_redraw,
            final(self).options_start_line == old(self).options_start_line,
    {
        match direction {
            FocusDirection::Up => {
                if self.current_focus > 0 {
                    self.current_focus -= 1;
                } else {
                    self.current_focus = self.displayed_options.len() - 1;
                }
            },
            FocusDirection::Down => {
                self.current_focus = (self.current_focus + 1) % self.displayed_options.len();
            },
        }
    }

    /// True exactly when the selection set equals the given set of correct
    /// identities: a strict subset or strict superset is incorrect.
    pub fn check_answer(&self, correct_options: &[String]) -> (r: bool)
        ensures
            r == (self.sel_set() == correct_options.deep_view().to_set()),
    {
        let mut k: usize = 0;
        while k < self.user_selections.len()
            invariant
                k <= self.user_selections.len(),
                forall|i: int|
                    0 <= i < k ==> correct_options.deep_view().to_set().contains(
                        self.user_selections.deep_view()[i],
                    ),
            decreases self.user_selections.len() - k,
        {
            let sel_k = &self.user_selections[k];
            if !contains_string(correct_options, sel_k) {
                proof {
                    let x = sel_k@;
                    assert(x == self.user_selections.deep_view()[k as int]);
                    assert(self.sel_set().contains(x));
                    assert(!correct_options.deep_view().to_set().contains(x));
                }
                return false;
            }
            k += 1;
        }
        let mut k: usize = 0;
        while k < correct_options.len()
            invariant
                k <= correct_options.len(),
                forall|i: int| 0 <= i < k ==> self.sel_set().contains(correct_options.deep_view()[i]),
                forall|i: int|
                    0 <= i < self.user_selections.len() ==> correct_options.deep_view().to_set()
                        .contains(self.user_selections.deep_view()[i]),
            decreases correct_options.len() - k,
        {
            let cor_k = &correct_options[k];
            if !self.is_selected(cor_k) {
                proof {
                    let x = cor_k@;
                    assert(x == correct_options.deep_view()[k as int]);
                    assert(correct_options.deep_view().to_set().contains(x));
                    assert(!self.sel_set().contains(x));
                }
                return false;
            }
            k += 1;
        }
        proof {
            let cset = correct_options.deep_view().to_set();
            assert forall|x: Seq<char>| self.sel_set().contains(x) implies cset.contains(x) by {
                let i = choose|i: int|
                    0 <= i < self.user_selections.deep_view().len()
                        && self.user_selections.deep_view()[i] == x;
            }
            assert forall|x: Seq<char>| cset.contains(x) implies self.sel_set().contains(x) by {
                let i = choose|i: int|
                    0 <= i < correct_options.deep_view().len() && correct_options.deep_view()[i] == x;
            }
            assert(self.sel_set() =~= cset);
        }
        true
    }

    /// Populate the revealed-correctness hints for every option of the
    /// question and enter the hint-showing phase.
    pub fn reveal_all_status(&mut self, question: &Question)
        requires
            old(self).wf(),
        ensures
            final(self).wf(),
            final(self).revealed_status.deep_view() == question@.options.map_values(
                |o: OptionView| (o.id, o.is_correct),
            ),
            final(self).revealed_status.len() == question@.options.len(),
            final(self).revealed_map() == option_status_map(question@.options),
            final(self).phase == AnswerPhase::ShowingHints,
            final(self).displayed_options == old(self).displayed_options,
            final(self).user_selections == old(self).user_selections,
            final(self).current_focus == old(self).current_focus,
            final(self).option_positions == old(self).option_positions,
            final(self).scroll_mode == old(self).scroll_mode,
            final(self).can_use_local_redraw == old(self).can_use_local_redraw,
            final(self).options_start_line == old(self).options_start_line,
    {
        self.revealed_status = Vec::new();
        let mut k: usize = 0;
        let ghost opts = question@.options;
        while k < question.options.len()
            invariant
                k <= question.options.len(),
                opts == question@.options,
                self.revealed_status.deep_view() =~= opts.take(k as int).map_values(
                    |o: OptionView| (o.id, o.is_correct),
                ),
                self.displayed_options == old(self).displayed_options,
                self.user_selections == old(self).user_selections,
                self.current_focus == old(self).current_focus,
                self.phase == old(self).phase,
                self.option_positions == old(self).option_positions,
                self.scroll_mode == old(self).scroll_mode,
                self.can_use_local_redraw == old(self).can_use_local_redraw,
                self.options_start_line == old(self).options_start_line,
                old(self).wf(),
            decreases question.options.len() - k,
        {
            let opt = &question.options[k];
            self.revealed_status.push((opt.id.clone(), opt.is_correct));
            proof {
                assert(opts.take(k + 1).map_values(|o: OptionView| (o.id, o.is_correct))
                    =~= opts.take(k as int).map_values(|o: OptionView| (o.id, o.is_correct)).push(
                    (opts[k as int].id, opts[k as int].is_correct),
                ));
            }
            k += 1;
        }
        proof {
            assert(opts.take(opts.len() as int) =~= opts);
        }
        self.phase = AnswerPhase::ShowingHints;
    }
}

/// The position of the first string with this content, if any.
pub fn index_of_string(v: &Vec<String>, x: &String) -> (r: Option<usize>)
    ensures
        match r {
            Some(k) => k < v.len() && v.deep_view()[k as int] == x@,
            None => !v.deep_view().contains(x@),
        },
{
    let mut k: usize = 0;
    while k < v.len()
        invariant
            k <= v.len(),
            forall|i: int| 0 <= i < k ==> v.deep_view()[i] != x@,
        decreases v.len() - k,
    {
        if v[k] == *x {
            assert(v.deep_view()[k as int] == x@);
            return Some(k);
        }
        k += 1;
    }
    assert(!v.deep_view().contains(x@));
    None
}

/// Removing position `k` from a duplicate-free sequence removes exactly
/// that element from its set and keeps the rest duplicate-free.
proof fn lemma_distinct_remove_to_set(s: Seq<Seq<char>>, k: int)
    requires
        0 <= k < s.len(),
        forall|i: int, j: int| 0 <= i < j < s.len() ==> s[i] != s[j],
    ensures
        s.remove(k).to_set() == s.to_set().remove(s[k]),
        forall|i: int, j: int| 0 <= i < j < s.remove(k).len() ==> s.remove(k)[i] != s.remove(k)[j],
{
    let t = s.remove(k);
    assert forall|x: Seq<char>| t.to_set().contains(x) implies s.to_set().remove(s[k]).contains(x) by {
        let i = choose|i: int| 0 <= i < t.len() && t[i] == x;
        if i < k {
            assert(s[i] == x);
            assert(x != s[k]);
        } else {
            assert(s[i + 1] == x);
            assert(x != s[k]);
        }
    }
    assert forall|x: Seq<char>| s.to_set().remove(s[k]).contains(x) implies t.to_set().contains(x) by {
        let i = choose|i: int| 0 <= i < s.len() && s[i] == x;
        assert(i != k);
        if i < k {
            assert(t[i] == x);
        } else {
            assert(t[i - 1] == x);
        }
    }
    assert(t.to_set() =~= s.to_set().remove(s[k]));
    assert forall|i: int, j: int| 0 <= i < j < t.len() implies t[i] != t[j] by {
        if j < k {
            assert(s[i] != s[j]);
        } else if i < k {
            assert(s[i] != s[j + 1]);
        } else {
            assert(s[i + 1] != s[j + 1]);
        }
    }
}

/// Appending an element that is not yet present inserts exactly that
/// element into the set and keeps the sequence duplicate-free.
proof fn lemma_distinct_push_to_set(s: Seq<Seq<char>>, x: Seq<char>)
    requires
        !s.to_set().contains(x),
        forall|i: int, j: int| 0 <= i < j < s.len() ==> s[i] != s[j],
    ensures
        s.push(x).to_set() == s.to_set().insert(x),
        forall|i: int, j: int| 0 <= i < j < s.push(x).len() ==> s.push(x)[i] != s.push(x)[j],
{
    let t = s.push(x);
    assert forall|y: Seq<char>| t.to_set().contains(y) implies s.to_set().insert(x).contains(y) by {
        let i = choose|i: int| 0 <= i < t.len() && t[i] == y;
        if i < s.len() {
            assert(s[i] == y);
        }
    }
    assert forall|y: Seq<char>| s.to_set().insert(x).contains(y) implies t.to_set().contains(y) by {
        if y == x {
            assert(t[s.len() as int] == y);
        } else {
            let i = choose|i: int| 0 <= i < s.len() && s[i] == y;
            assert(t[i] == y);
        }
    }
    assert(t.to_set() =~= s.to_set().insert(x));
    assert forall|i: int, j: int| 0 <= i < j < t.len() implies t[i] != t[j] by {
        if j < s.len() {
            assert(s[i] != s[j]);
        } else {
            assert(t[i] == s[i]);
            assert(!s.to_set().contains(x));
            assert(s.to_set().contains(s[i])) by {
                assert(s[i] == s[i]);
            }
        }
    }
}

/// True if the slice holds a string with this content.
pub fn contains_string(v: &[String], x: &String) -> (r: bool)
    ensures
        r == v.deep_view().contains(x@),
{
    let mut k: usize = 0;
    while k < v.len()
        invariant
            k <= v.len(),
            forall|i: int| 0 <= i < k ==> v.deep_view()[i] != x@,
        decreases v.len() - k,
    {
        if v[k] == *x {
            assert(v.deep_view()[k as int] == x@);
            return true;
        }
        k += 1;
    }
    false
}

/// Double toggle is the identity: flipping the same identity twice in
/// immediate succession restores the prior selection set.
pub proof fn lemma_double_toggle(s: Set<Seq<char>>, id: Seq<char>)
    ensures
        toggled(toggled(s, id), id) == s,
{
    if s.contains(id) {
        assert(toggled(toggled(s, id), id) =~= s);
    } else {
        assert(toggled(toggled(s, id), id) =~= s);
    }
}

/// Toggling the option at one display index twice in immediate succession
/// restores the prior selection set: two states reached by consecutive
/// `toggle_selection` calls on the same index select exactly what the
/// first state selected.
pub proof fn lemma_double_toggle_restores(
    pre: QuestionState,
    mid: QuestionState,
    post: QuestionState,
    option_index: int,
)
    requires
        0 <= option_index < pre.displayed_options.len(),
        mid.displayed_options == pre.displayed_options,
        mid.sel_set() == toggled(pre.sel_set(), pre.displayed_options[option_index]@.id),
        post.sel_set() == toggled(mid.sel_set(), mid.displayed_options[option_index]@.id),
    ensures
        post.sel_set() == pre.sel_set(),
{
    lemma_double_toggle(pre.sel_set(), pre.displayed_options[option_index]@.id);
}

impl QuestionState {
    /// Fresh state for one question: options permuted into a random display
    /// order, nothing selected, focus on the first option, first-attempt
    /// phase, and an empty render cache.
    pub fn new(question: &Question) -> (r: QuestionState)
        requires
            question@.wf(),
        ensures
            r.wf(),
            r.displayed_options.deep_view().to_multiset() == question@.options.to_multiset(),
            ids_of(r.displayed_options.deep_view()) == ids_of(question@.options),
            r.user_selections.len() == 0,
            r.current_focus == 0,
            r.phase == AnswerPhase::FirstAttempt,
            r.revealed_status.len() == 0,
            r.option_positions.len() == 0,
            r.options_start_line is None,
            r.can_use_local_redraw,
            !r.scroll_mode,
    {
        let mut displayed_options = question.options.clone();
        proof {
            lemma_cloned_options_deep_view(question.options, displayed_options);
        }
        shuffle_options(&mut displayed_options);
        proof {
            lemma_permutation_preserves_ids(displayed_options.deep_view(), question@.options);
            lemma_permutation_preserves_distinct_ids(
                displayed_options.deep_view(),
                question@.options,
            );
        }
        QuestionState {
            displayed_options,
            user_selections: Vec::new(),
            current_focus: 0,
            phase: AnswerPhase::FirstAttempt,
            revealed_status: Vec::new(),
            options_start_line: None,
            can_use_local_redraw: true,
            option_positions: Vec::new(),
            scroll_mode: false,
        }
    }
}

/// Shuffling is a permutation: sequences with equal multisets carry the
/// same set of option identities, so no identity is dropped or invented.
pub proof fn lemma_permutation_preserves_ids(a: Seq<OptionView>, b: Seq<OptionView>)
    requires
        a.to_multiset() == b.to_multiset(),
    ensures
        ids_of(a) == ids_of(b),
        a.len() == b.len(),
{
    assert(a.len() == b.len()) by {
        assert(a.to_multiset().len() == a.len());
        assert(b.to_multiset().len() == b.len());
    }
    assert forall|id: Seq<char>| ids_of(a).contains(id) implies ids_of(b).contains(id) by {
        lemma_ids_one_direction(a, b, id);
    }
    assert forall|id: Seq<char>| ids_of(b).contains(id) implies ids_of(a).contains(id) by {
        lemma_ids_one_direction(b, a, id);
    }
    assert(ids_of(a) =~= ids_of(b));
}

proof fn lemma_ids_one_direction(a: Seq<OptionView>, b: Seq<OptionView>, id: Seq<char>)
    requires
        a.to_multiset() == b.to_multiset(),
        ids_of(a).contains(id),
    ensures
        ids_of(b).contains(id),
{
    let ids_a = a.map_values(|o: OptionView| o.id);
    let ia = choose|i: int| 0 <= i < ids_a.len() && #[trigger] ids_a[i] == id;
    let o = a[ia];
    assert(a.contains(o));
    assert(a.to_multiset().count(o) > 0);
    assert(b.to_multiset().count(o) > 0);
    assert(b.contains(o));
    let ib = choose|i: int| 0 <= i < b.len() && b[i] == o;
    assert(b.map_values(|x: OptionView| x.id)[ib] == id);
}

/// A permutation of options with pairwise-distinct identities has
/// pairwise-distinct identities itself.
pub proof fn lemma_permutation_preserves_distinct_ids(a: Seq<OptionView>, b: Seq<OptionView>)
    requires
        a.to_multiset() == b.to_multiset(),
        forall|i: int, j: int| 0 <= i < j < b.len() ==> b[i].id != b[j].id,
    ensures
        forall|i: int, j: int| 0 <= i < j < a.len() ==> a[i].id != a[j].id,
{
    assert(a.len() == b.len()) by {
        assert(a.to_multiset().len() == a.len());
        assert(b.to_multiset().len() == b.len());
    }
    assert forall|i: int, j: int| 0 <= i < j < a.len() implies a[i].id != a[j].id by {
        if a[i].id == a[j].id {
            assert(a.contains(a[i]));
            assert(a.to_multiset().count(a[i]) > 0);
            assert(b.contains(a[i]));
            let k = choose|k: int| 0 <= k < b.len() && b[k] == a[i];
            assert(a.remove(i).to_multiset() =~= a.to_multiset().remove(a[i]));
            assert(b.remove(k).to_multiset() =~= b.to_multiset().remove(b[k]));
            assert(a.remove(i)[j - 1] == a[j]);
            assert(a.remove(i).contains(a[j]));
            assert(a.remove(i).to_multiset().count(a[j]) > 0);
            assert(b.remove(k).to_multiset().count(a[j]) > 0);
            assert(b.remove(k).contains(a[j]));
            let m = choose|m: int| 0 <= m < b.remove(k).len() && b.remove(k)[m] == a[j];
            if m < k {
                assert(b[m] == a[j]);
                assert(b[m].id != b[k].id);
            } else {
                assert(b[m + 1] == a[j]);
                assert(b[k].id != b[m + 1].id);
            }
            assert(false);
        }
    }
}


/// The identities of the correct options of a question, in stored order.
pub fn collect_correct_ids(options: &Vec<QuestionOption>) -> (r: Vec<String>)
    ensures
        r.deep_view() == correct_id_seq(options.deep_view()),
{
    let mut r: Vec<String> = Vec::new();
    let mut k: usize = 0;
    while k < options.len()
        invariant
            k <= options.len(),
            r.deep_view() =~= correct_id_seq(options.deep_view().take(k as int)),
        decreases options.len() - k,
    {
        let ghost prefix = options.deep_view().take(k as int);
        let ghost next = options.deep_view().take(k + 1);
        if options[k].is_correct {
            r.push(options[k].id.clone());
        }
        proof {
            assert(next.drop_last() =~= prefix);
            assert(next.last() == options.deep_view()[k as int]);
        }
        k += 1;
    }
    proof {
        assert(options.deep_view().take(options.len() as int) =~= options.deep_view());
    }
    r
}

/// One interactive quiz session: the module it belongs to, the question
/// being asked, its mutable state, and bookkeeping about attempts.
#[derive(Debug)]
pub struct QuizSession {
    pub module: String,
    pub current_question: Option<Question>,
    pub question_state: QuestionState,
    pub attempt_count: usize,
    pub completed: bool,
}

/// The submission protocol, as a relation between the session before a
/// submit, the session after it, and the reported result. The judgement is
/// a strict set equality: a strict subset or superset of the correct set is
/// incorrect. An incorrect first attempt keeps the failed selections, so
/// the user can correct them iteratively.
pub open spec fn submission_spec(pre: QuizSession, post: QuizSession, r: QuizResult) -> bool {
    &&& post.module == pre.module
    &&& post.completed == pre.completed
    &&& post.current_question == pre.current_question
    &&& post.question_state.displayed_options == pre.question_state.displayed_options
    &&& post.question_state.user_selections == pre.question_state.user_selections
    &&& post.question_state.current_focus == pre.question_state.current_focus
    &&& match pre.current_question {
        None => r == QuizResult::Continue && post == pre,
        Some(q) => {
            let was_correct = pre.question_state.sel_set() == correct_ids_of(q@.options);
            &&& post.attempt_count == pre.attempt_count + 1
            &&& match pre.question_state.phase {
                AnswerPhase::FirstAttempt => if was_correct {
                    &&& r == QuizResult::Completed
                    &&& post.question_state == pre.question_state
                } else {
                    &&& r == QuizResult::Continue
                    &&& post.question_state.phase == AnswerPhase::ShowingHints
                    &&& post.question_state.revealed_map() == option_status_map(q@.options)
                },
                AnswerPhase::ShowingHints => if was_correct {
                    &&& r == QuizResult::Completed
                    &&& post.question_state.phase == AnswerPhase::FinalAnswer
                    &&& post.question_state.revealed_status == pre.question_state.revealed_status
                } else {
                    &&& r == QuizResult::Continue
                    &&& post.question_state == pre.question_state
                },
                AnswerPhase::FinalAnswer => {
                    &&& r == QuizResult::Completed
                    &&& post.question_state == pre.question_state
                },
            }
        },
    }
}

impl QuizSession {
    /// Session invariant: the question state is well formed, and so is the
    /// question when one is present.
    pub open spec fn wf(self) -> bool {
        &&& self.question_state.wf()
        &&& match self.current_question {
            Some(q) => q@.size_ok(),
            None => true,
        }
    }

    /// Judge the current selection against the question's correct set and
    /// advance the answer-escalation protocol: a correct first attempt
    /// completes the session; an incorrect first attempt reveals every
    /// option's correctness and enters the hint phase; a correct hinted
    /// attempt moves to the final-answer view; an incorrect hinted attempt
    /// changes nothing; any submit in the final phase completes.
    pub fn handle_answer_submission(&mut self) -> (r: QuizResult)
        requires
            old(self).wf(),
            old(self).attempt_count < usize::MAX,
        ensures
            final(self).wf(),
            submission_spec(*old(self), *final(self), r),
    {
        match &self.current_question {
            Some(question) => {
                let correct_options = collect_correct_ids(&question.options);
                let is_correct = self.question_state.check_answer(correct_options.as_slice());
                self.attempt_count += 1;
                match self.question_state.phase {
                    AnswerPhase::FirstAttempt => {
                        if is_correct {
                            QuizResult::Completed
                        } else {
                            let question = question.clone();
                            self.question_state.reveal_all_status(&question);
                            QuizResult::Continue
                        }
                    },
                    AnswerPhase::ShowingHints => {
                        if is_correct {
                            self.question_state.phase = AnswerPhase::FinalAnswer;
                            QuizResult::Completed
                        } else {
                            QuizResult::Continue
                        }
                    },
                    AnswerPhase::FinalAnswer => QuizResult::Completed,
                }
            },
            None => QuizResult::Continue,
        }
    }
}


/// What the renderer should do after an interaction step.
#[derive(Clone, Copy, Debug, PartialEq, Eq, Structural)]
pub enum RepaintRequest {
    /// Nothing changed on screen.
    Idle,
    /// Repaint exactly these two display lines (equal for a toggle).
    Lines(usize, usize),
    /// Repaint the whole question view.
    Full,
}

/// The outcome of dispatching one semantic action.
#[derive(Clone, Copy, Debug, PartialEq, Eq, Structural)]
pub enum StepOutcome {
    Repaint(RepaintRequest),
    Submitted(QuizResult),
    QuitRequested,
}

/// The focus index that one circular step reaches.
pub open spec fn focus_target(st: QuestionState, direction: FocusDirection) -> int {
    match direction {
        FocusDirection::Up => if st.current_focus > 0 {
            st.current_focus - 1
        } else {
            st.displayed_options.len() - 1
        },
        FocusDirection::Down => (st.current_focus + 1) % (st.displayed_options.len() as int),
    }
}

/// A targeted repaint of these display lines is possible: the cache is
/// valid and covers both of them.
pub open spec fn partial_repaint_ok(st: QuestionState, i: int, j: int) -> bool {
    &&& st.can_use_local_redraw
    &&& st.option_positions.len() > 0
    &&& i < st.option_positions.len()
    &&& j < st.option_positions.len()
}

impl QuizSession {
    /// Apply one semantic action to the session: move focus, toggle a
    /// selection (by focus or directly by 1-based letter index), submit,
    /// quit, or invalidate the render cache on a resize. Unknown actions
    /// and out-of-range letter indices change nothing and request no
    /// repaint.
    pub fn dispatch_input(&mut self, input: UserInput) -> (r: StepOutcome)
        requires
            old(self).wf(),
            old(self).attempt_count < usize::MAX,
        ensures
            final(self).wf(),
            match input {
                UserInput::MoveFocus(direction) => {
                    let st0 = old(self).question_state;
                    let st1 = final(self).question_state;
                    &&& st1.current_focus == focus_target(st0, direction)
                    &&& st1.displayed_options == st0.displayed_options
                    &&& st1.user_selections == st0.user_selections
                    &&& st1.phase == st0.phase
                    &&& st1.revealed_status == st0.revealed_status
                    &&& st1.option_positions == st0.option_positions
                    &&& r == StepOutcome::Repaint(
                        if partial_repaint_ok(st0, st0.current_focus as int, focus_target(st0, direction)) {
                            RepaintRequest::Lines(st0.current_focus, focus_target(st0, direction) as usize)
                        } else {
                            RepaintRequest::Full
                        },
                    )
                },
                UserInput::ToggleSelection => {
                    let st0 = old(self).question_state;
                    let st1 = final(self).question_state;
                    &&& st1.sel_set() == toggled(
                        st0.sel_set(),
                        st0.displayed_options[st0.current_focus as int]@.id,
                    )
                    &&& st1.displayed_options == st0.displayed_options
                    &&& st1.current_focus == st0.current_focus
                    &&& st1.phase == st0.phase
                    &&& st1.revealed_status == st0.revealed_status
                    &&& st1.option_positions == st0.option_positions
                    &&& r == StepOutcome::Repaint(
                        if partial_repaint_ok(st0, st0.current_focus as int, st0.current_focus as int) {
                            RepaintRequest::Lines(st0.current_focus, st0.current_focus)
                        } else {
                            RepaintRequest::Full
                        },
                    )
                },
                UserInput::SelectByIndex(index) => {
                    let st0 = old(self).question_state;
                    let st1 = final(self).question_state;
                    if 1 <= index <= st0.displayed_options.len() {
                        &&& st1.current_focus == index - 1
                        &&& st1.sel_set() == toggled(
                            st0.sel_set(),
                            st0.displayed_options[index - 1]@.id,
                        )
                        &&& st1.displayed_options == st0.displayed_options
                        &&& st1.phase == st0.phase
                        &&& st1.revealed_status == st0.revealed_status
                        &&& st1.option_positions == st0.option_positions
                        &&& r == StepOutcome::Repaint(
                            if partial_repaint_ok(st0, index - 1, index - 1) {
                                RepaintRequest::Lines((index - 1) as usize, (index - 1) as usize)
                            } else {
                                RepaintRequest::Full
                            },
                        )
                    } else {
                        &&& *final(self) == *old(self)
                        &&& r == StepOutcome::Repaint(RepaintRequest::Idle)
                    }
                },
                UserInput::Submit => {
                    exists|res: QuizResult|
                        r == StepOutcome::Submitted(res) && #[trigger] submission_spec(
                            *old(self),
                            *final(self),
                            res,
                        )
                },
                UserInput::Quit => *final(self) == *old(self) && r == StepOutcome::QuitRequested,
                UserInput::Resize => {
                    let st0 = old(self).question_state;
                    let st1 = final(self).question_state;
                    &&& st1.option_positions.len() == 0
                    &&& st1.options_start_line is None
                    &&& st1.can_use_local_redraw
                    &&& st1.displayed_options == st0.displayed_options
                    &&& st1.user_selections == st0.user_selections
                    &&& st1.current_focus == st0.current_focus
                    &&& st1.phase == st0.phase
                    &&& st1.revealed_status == st0.revealed_status
                    &&& r == StepOutcome::Repaint(RepaintRequest::Full)
                },
                UserInput::Unknown => *final(self) == *old(self) && r == StepOutcome::Repaint(
                    RepaintRequest::Idle,
                ),
            },
    {
        match input {
            UserInput::MoveFocus(direction) => {
                let old_focus = self.question_state.current_focus;
                self.question_state.move_focus(direction);
                let new_focus = self.question_state.current_focus;
                if self.question_state.can_use_local_redraw
                    && self.question_state.option_positions.len() > 0
                    && old_focus < self.question_state.option_positions.len()
                    && new_focus < self.question_state.option_positions.len() {
                    StepOutcome::Repaint(RepaintRequest::Lines(old_focus, new_focus))
                } else {
                    StepOutcome::Repaint(RepaintRequest::Full)
                }
            },
            UserInput::ToggleSelection => {
                let focus_index = self.question_state.current_focus;
                self.question_state.toggle_selection(focus_index);
                if self.question_state.can_use_local_redraw
                    && self.question_state.option_positions.len() > 0
                    && focus_index < self.question_state.option_positions.len() {
                    StepOutcome::Repaint(RepaintRequest::Lines(focus_index, focus_index))
                } else {
                    StepOutcome::Repaint(RepaintRequest::Full)
                }
            },
            UserInput::SelectByIndex(index) => {
                if index > 0 && index <= self.question_state.displayed_options.len() {
                    let option_index = index - 1;
                    self.question_state.current_focus = option_index;
                    self.question_state.toggle_selection(option_index);
                    if self.question_state.can_use_local_redraw
                        && self.question_state.option_positions.len() > 0
                        && option_index < self.question_state.option_positions.len() {
                        StepOutcome::Repaint(RepaintRequest::Lines(option_index, option_index))
                    } else {
                        StepOutcome::Repaint(RepaintRequest::Full)
                    }
                } else {
                    StepOutcome::Repaint(RepaintRequest::Idle)
                }
            },
            UserInput::Submit => {
                let res = self.handle_answer_submission();
                StepOutcome::Submitted(res)
            },
            UserInput::Quit => StepOutcome::QuitRequested,
            UserInput::Resize => {
                self.question_state.options_start_line = None;
                self.question_state.option_positions = Vec::new();
                self.question_state.can_use_local_redraw = true;
                StepOutcome::Repaint(RepaintRequest::Full)
            },
            UserInput::Unknown => StepOutcome::Repaint(RepaintRequest::Idle),
        }
    }
}


/// Circular navigation wraps: moving up from index 0 reaches the last
/// index, and moving down from the last index reaches index 0, for any
/// option count of at least one.
pub proof fn lemma_focus_wraps(st: QuestionState)
    requires
        st.wf(),
    ensures
        st.current_focus == 0 ==> focus_target(st, FocusDirection::Up)
            == st.displayed_options.len() - 1,
        st.current_focus == st.displayed_options.len() - 1 ==> focus_target(
            st,
            FocusDirection::Down,
        ) == 0,
{
    let n = st.displayed_options.len() as int;
    if st.current_focus == n - 1 {
        assert(n % n == 0) by (nonlinear_arith)
            requires n > 0;
    }
}


/// Runtime check of a question's well-formedness, for unverified callers
/// that must reject malformed loaded content loudly before handing it to
/// the store: a workable option count, pairwise-distinct option
/// identities, and pairwise-distinct explanation keys.
pub fn question_is_wf(question: &Question) -> (r: bool)
    ensures
        r == question@.wf(),
{
    let n = question.options.len();
    if n == 0 || n > 26 {
        return false;
    }
    let mut i: usize = 0;
    while i < n
        invariant
            n == question.options.len(),
            i <= n,
            forall|a: int, b: int|
                0 <= a < b < n && a < i ==> (#[trigger] question@.options[a]).id != (
                #[trigger] question@.options[b]).id,
        decreases n - i,
    {
        let mut j: usize = i + 1;
        while j < n
            invariant
                n == question.options.len(),
                i < n,
                i < j <= n,
                forall|b: int|
                    i < b < j ==> question@.options[i as int].id != (
                    #[trigger] question@.options[b]).id,
            decreases n - j,
        {
            if question.options[i].id == question.options[j].id {
                proof {
                    assert(question@.options[i as int].id == question@.options[j as int].id);
                }
                return false;
            }
            j += 1;
        }
        i += 1;
    }
    let m = question.explanations.len();
    let mut i: usize = 0;
    while i < m
        invariant
            m == question.explanations.len(),
            i <= m,
            forall|a: int, b: int|
                0 <= a < b < m && a < i ==> (#[trigger] question@.explanations[a]).0 != (
                #[trigger] question@.explanations[b]).0,
        decreases m - i,
    {
        let mut j: usize = i + 1;
        while j < m
            invariant
                m == question.explanations.len(),
                i < m,
                i < j <= m,
                forall|b: int|
                    i < b < j ==> question@.explanations[i as int].0 != (
                    #[trigger] question@.explanations[b]).0,
            decreases m - j,
        {
            if question.explanations[i].option_id == question.explanations[j].option_id {
                proof {
                    assert(question@.explanations[i as int].0 == question@.explanations[
                        j as int
                    ].0);
                }
                return false;
            }
            j += 1;
        }
        i += 1;
    }
    true
}

} // verus!
