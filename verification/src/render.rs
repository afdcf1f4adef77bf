//! The adaptive renderer's verified core: choosing a coordinate strategy
//! from the available vertical space, caching per-option screen lines,
//! resolving a cached line back to an absolute row, and producing the exact
//! text of one option line. The terminal itself is driven elsewhere; these
//! functions decide what is drawn and where.

use vstd::prelude::*;
use crate::session::{
    partial_repaint_ok, AnswerPhase, OptionView, Question, QuestionState, pairs_to_map,
};
use crate::text::push_char;

verus! {

/// Lines reserved below the options for instructions, spacing and input.
pub const FOOTER_LINES: u16 = 6;

/// The adaptive renderer's verified core, gathered on one carrier type;
/// the terminal itself is driven by unverified glue around the library.
pub struct QuizUI;

/// The vertical space left under the write cursor.
pub open spec fn available_height(terminal_height: u16, current_row: u16) -> int {
    if terminal_height >= current_row {
        terminal_height - current_row
    } else {
        0
    }
}

/// The height the question's option area needs: one line per option plus
/// the fixed footer.
pub open spec fn content_height(option_count: int) -> int {
    option_count + FOOTER_LINES
}

/// The absolute row a cached option line resolves to right now: the stored
/// row itself when top-anchored, or the current height minus the stored
/// bottom distance when bottom-anchored.
pub open spec fn resolved_row(st: QuestionState, option_index: int, terminal_height: u16) -> Option<
    u16,
> {
    if option_index >= st.option_positions.len() {
        None
    } else if st.scroll_mode {
        if terminal_height >= st.option_positions[option_index] {
            Some((terminal_height - st.option_positions[option_index]) as u16)
        } else {
            Some(0u16)
        }
    } else {
        Some(st.option_positions[option_index])
    }
}

/// The display letter of a 0-based option index: A for 0, B for 1, and so
/// on.
pub open spec fn letter_of(index: int) -> char {
    ((65 + index) as u8) as char
}

/// The correctness glyph an option line shows once hints are visible.
pub open spec fn status_glyph(
    o: OptionView,
    phase: AnswerPhase,
    revealed: Map<Seq<char>, bool>,
) -> Seq<char> {
    match phase {
        AnswerPhase::FirstAttempt => " "@,
        AnswerPhase::ShowingHints => if revealed.contains_key(o.id) {
            if revealed[o.id] {
                "\u{2705}"@
            } else {
                "\u{274c}"@
            }
        } else {
            " "@
        },
        AnswerPhase::FinalAnswer => if o.is_correct {
            "\u{2705}"@
        } else {
            "\u{274c}"@
        },
    }
}

/// The exact text of one option line: focus marker, display letter,
/// selection checkbox, the option's content, and - only once the phase has
/// moved past the first attempt - its correctness glyph.
pub open spec fn option_line_view(
    o: OptionView,
    index: int,
    focused: bool,
    selected: bool,
    phase: AnswerPhase,
    revealed: Map<Seq<char>, bool>,
) -> Seq<char> {
    (if focused {
        "\u{1b}[93m\u{25ba} \u{1b}[0m"@
    } else {
        "  "@
    }) + "\u{1b}[94m"@ + seq![letter_of(index)] + ". \u{1b}[0m"@ + (if selected {
        "\u{1b}[92m[\u{2713}] \u{1b}[0m"@
    } else {
        "[ ] "@
    }) + (if focused {
        "\u{1b}[97m"@
    } else {
        Seq::empty()
    }) + o.content + "\u{1b}[0m"@ + (if phase != AnswerPhase::FirstAttempt {
        " "@ + status_glyph(o, phase, revealed)
    } else {
        Seq::empty()
    })
}

/// In the folded map, a key bound at position `k` and nowhere later maps
/// to the value stored at `k`.
proof fn lemma_pairs_to_map_last_wins(pairs: Seq<(Seq<char>, bool)>, k: int)
    requires
        0 <= k < pairs.len(),
        forall|i: int| k < i < pairs.len() ==> pairs[i].0 != pairs[k].0,
    ensures
        pairs_to_map(pairs).contains_key(pairs[k].0),
        pairs_to_map(pairs)[pairs[k].0] == pairs[k].1,
    decreases pairs.len(),
{
    if k == pairs.len() - 1 {
    } else {
        assert(pairs.drop_last()[k] == pairs[k]);
        lemma_pairs_to_map_last_wins(pairs.drop_last(), k);
    }
}

/// A key that appears in no pair is absent from the folded map.
proof fn lemma_pairs_to_map_absent(pairs: Seq<(Seq<char>, bool)>, key: Seq<char>)
    requires
        forall|i: int| 0 <= i < pairs.len() ==> pairs[i].0 != key,
    ensures
        !pairs_to_map(pairs).contains_key(key),
    decreases pairs.len(),
{
    if pairs.len() > 0 {
        assert(forall|i: int|
            0 <= i < pairs.drop_last().len() ==> pairs.drop_last()[i] == pairs[i]);
        lemma_pairs_to_map_absent(pairs.drop_last(), key);
    }
}

impl QuizUI {
    /// A full repaint is about to draw the options. Decide the coordinate
    /// strategy from the remaining vertical space and prime the position
    /// cache: with ample space, positions are recorded per line as they are
    /// printed (top-anchored); with insufficient space the terminal will
    /// scroll while printing, so each option instead gets its fixed distance
    /// from the bottom edge (bottom-anchored), which stays valid across
    /// scrolling.
    pub fn plan_options_layout(state: &mut QuestionState, terminal_height: u16, current_row: u16)
        requires
            old(state).wf(),
        ensures
            final(state).wf(),
            final(state).scroll_mode == (available_height(terminal_height, current_row)
                < content_height(old(state).displayed_options.len() as int)),
            final(state).can_use_local_redraw,
            !final(state).scroll_mode ==> final(state).option_positions.len() == 0,
            final(state).scroll_mode ==> {
                &&& final(state).option_positions.len() == old(state).displayed_options.len()
                &&& forall|i: int|
                    0 <= i < final(state).option_positions.len()
                        ==> final(state).option_positions[i] == FOOTER_LINES
                        + old(state).displayed_options.len() - i
            },
            final(state).displayed_options == old(state).displayed_options,
            final(state).user_selections == old(state).user_selections,
            final(state).current_focus == old(state).current_focus,
            final(state).phase == old(state).phase,
            final(state).revealed_status == old(state).revealed_status,
            final(state).options_start_line == old(state).options_start_line,
    {
        state.option_positions = Vec::new();
        state.can_use_local_redraw = true;
        let options_count = state.displayed_options.len();
        let available = if terminal_height >= current_row {
            terminal_height - current_row
        } else {
            0
        };
        let needed = options_count as u16 + FOOTER_LINES;
        if available >= needed {
            state.scroll_mode = false;
        } else {
            state.scroll_mode = true;
            let mut i: usize = 0;
            while i < options_count
                invariant
                    i <= options_count,
                    options_count == state.displayed_options.len(),
                    state.wf(),
                    state.option_positions.len() == i,
                    forall|k: int|
                        0 <= k < i ==> state.option_positions[k] == FOOTER_LINES + options_count - k,
                    state.displayed_options == old(state).displayed_options,
                    state.user_selections == old(state).user_selections,
                    state.current_focus == old(state).current_focus,
                    state.phase == old(state).phase,
                    state.revealed_status == old(state).revealed_status,
                    state.options_start_line == old(state).options_start_line,
                    state.scroll_mode,
                    state.can_use_local_redraw,
                decreases options_count - i,
            {
                let reverse_line = FOOTER_LINES + (options_count - i) as u16;
                state.option_positions.push(reverse_line);
                i += 1;
            }
        }
    }

    /// While printing top-anchored, record the actual screen row the option
    /// line just landed on.
    pub fn record_option_row(state: &mut QuestionState, row: u16)
        requires
            old(state).wf(),
        ensures
            final(state).wf(),
            final(state).option_positions@ == old(state).option_positions@.push(row),
            final(state).displayed_options == old(state).displayed_options,
            final(state).user_selections == old(state).user_selections,
            final(state).current_focus == old(state).current_focus,
            final(state).phase == old(state).phase,
            final(state).revealed_status == old(state).revealed_status,
            final(state).scroll_mode == old(state).scroll_mode,
            final(state).can_use_local_redraw == old(state).can_use_local_redraw,
            final(state).options_start_line == old(state).options_start_line,
    {
        state.option_positions.push(row);
    }

    /// Resolve the cached coordinate of one option line to an absolute screen
    /// row, or nothing if the cache does not cover that option, in which case
    /// the caller falls back to a full repaint.
    pub fn resolve_option_row(state: &QuestionState, option_index: usize, terminal_height: u16) -> (r:
        Option<u16>)
        ensures
            r == resolved_row(*state, option_index as int, terminal_height),
    {
        if option_index >= state.option_positions.len() {
            None
        } else if state.scroll_mode {
            let stored = state.option_positions[option_index];
            if terminal_height >= stored {
                Some(terminal_height - stored)
            } else {
                Some(0)
            }
        } else {
            Some(state.option_positions[option_index])
        }
    }

    /// The display letter of an option index.
    pub fn option_letter(index: usize) -> (r: char)
        requires
            index < 26,
        ensures
            r == letter_of(index as int),
    {
        (65u8 + index as u8) as char
    }

    /// Produce the text of the option line at this display index, reflecting
    /// the current focus, selection, phase and revealed hints.
    pub fn render_option_line(state: &QuestionState, option_index: usize) -> (r: String)
        requires
            state.wf(),
            option_index < state.displayed_options.len(),
        ensures
            r@ == option_line_view(
                state.displayed_options[option_index as int]@,
                option_index as int,
                option_index == state.current_focus,
                state.sel_set().contains(state.displayed_options[option_index as int]@.id),
                state.phase,
                state.revealed_map(),
            ),
    {
        let option = &state.displayed_options[option_index];
        let is_focused = option_index == state.current_focus;
        let is_selected = state.is_selected(&option.id);
        let mut line = String::new();
        if is_focused {
            line.append("\u{1b}[93m\u{25ba} \u{1b}[0m");
        } else {
            line.append("  ");
        }
        line.append("\u{1b}[94m");
        push_char(&mut line, Self::option_letter(option_index));
        line.append(". \u{1b}[0m");
        if is_selected {
            line.append("\u{1b}[92m[\u{2713}] \u{1b}[0m");
        } else {
            line.append("[ ] ");
        }
        if is_focused {
            line.append("\u{1b}[97m");
        }
        line.append(option.content.as_str());
        line.append("\u{1b}[0m");
        match state.phase {
            AnswerPhase::FirstAttempt => {},
            AnswerPhase::ShowingHints => {
                line.append(" ");
                match Self::revealed_lookup(state, &option.id) {
                    Some(true) => line.append("\u{2705}"),
                    Some(false) => line.append("\u{274c}"),
                    None => line.append(" "),
                }
            },
            AnswerPhase::FinalAnswer => {
                line.append(" ");
                if option.is_correct {
                    line.append("\u{2705}");
                } else {
                    line.append("\u{274c}");
                }
            },
        }
        line
    }

    /// Look an identity up in the revealed-correctness hints; the latest
    /// entry for an identity wins, as in the map the hints fold into.
    pub fn revealed_lookup(state: &QuestionState, option_id: &String) -> (r: Option<bool>)
        ensures
            r == if state.revealed_map().contains_key(option_id@) {
                Some(state.revealed_map()[option_id@])
            } else {
                None
            },
    {
        let mut k: usize = state.revealed_status.len();
        while k > 0
            invariant
                k <= state.revealed_status.len(),
                forall|i: int|
                    k <= i < state.revealed_status.len()
                        ==> state.revealed_status.deep_view()[i].0 != option_id@,
            decreases k,
        {
            k -= 1;
            if state.revealed_status[k].0 == *option_id {
                proof {
                    assert(state.revealed_status.deep_view()[k as int].0 == option_id@);
                    lemma_pairs_to_map_last_wins(state.revealed_status.deep_view(), k as int);
                }
                return Some(state.revealed_status[k].1);
            }
        }
        proof {
            lemma_pairs_to_map_absent(state.revealed_status.deep_view(), option_id@);
        }
        None
    }

    /// The display letter of the option with this identity, or a question
    /// mark if no displayed option carries it.
    pub fn get_option_letter(state: &QuestionState, option_id: &String) -> (r: char)
        requires
            state.wf(),
        ensures
            ({
                let ids = state.displayed_options.deep_view().map_values(|o: OptionView| o.id);
                if ids.contains(option_id@) {
                    exists|i: int|
                        0 <= i < ids.len() && ids[i] == option_id@ && r == letter_of(i)
                } else {
                    r == '?'
                }
            }),
    {
        let mut k: usize = 0;
        while k < state.displayed_options.len()
            invariant
                state.wf(),
                k <= state.displayed_options.len(),
                forall|i: int|
                    0 <= i < k ==> #[trigger] state.displayed_options.deep_view()[i].id
                        != option_id@,
            decreases state.displayed_options.len() - k,
        {
            if state.displayed_options[k].id == *option_id {
                proof {
                    let ids = state.displayed_options.deep_view().map_values(|o: OptionView| o.id);
                    assert(ids[k as int] == option_id@);
                }
                return Self::option_letter(k);
            }
            k += 1;
        }
        proof {
            let ids = state.displayed_options.deep_view().map_values(|o: OptionView| o.id);
            assert forall|i: int| 0 <= i < ids.len() implies ids[i] != option_id@ by {
                assert(state.displayed_options.deep_view()[i].id != option_id@);
            }
            assert(!ids.contains(option_id@));
        }
        '?'
    }

    /// The explanation text a question records for this option identity, if
    /// any.
    pub fn explanation_for<'a>(question: &'a Question, option_id: &String) -> (r: Option<&'a String>)
        ensures
            match r {
                Some(text) => exists|i: int|
                    0 <= i < question@.explanations.len() && question@.explanations[i]
                        == (option_id@, text@),
                None => forall|i: int|
                    0 <= i < question@.explanations.len() ==> question@.explanations[i].0
                        != option_id@,
            },
    {
        let mut k: usize = 0;
        while k < question.explanations.len()
            invariant
                k <= question.explanations.len(),
                forall|i: int| 0 <= i < k ==> question@.explanations[i].0 != option_id@,
            decreases question.explanations.len() - k,
        {
            if question.explanations[k].option_id == *option_id {
                proof {
                    assert(question@.explanations[k as int] == (
                        option_id@,
                        question.explanations[k as int].text@,
                    ));
                }
                return Some(&question.explanations[k].text);
            }
            k += 1;
        }
        None
    }



}


/// A terminal resize invalidates the render cache unconditionally and the
/// next repaint re-measures the space. Two general consequences, over the
/// relations `dispatch_input` and `plan_options_layout` establish: with
/// the cache cleared no targeted repaint is possible for any line, so the
/// next repaint is a full one; and when the re-measured space is ample,
/// the replanned state has left scroll mode, anchoring coordinates to the
/// top again.
pub proof fn lemma_resize_forces_full_then_top_anchored(
    resized: QuestionState,
    replanned: QuestionState,
    terminal_height: u16,
    current_row: u16,
    i: int,
    j: int,
)
    requires
        resized.option_positions.len() == 0,
        replanned.displayed_options == resized.displayed_options,
        replanned.scroll_mode == (available_height(terminal_height, current_row) < content_height(
            resized.displayed_options.len() as int,
        )),
        available_height(terminal_height, current_row) >= content_height(
            resized.displayed_options.len() as int,
        ),
    ensures
        !partial_repaint_ok(resized, i, j),
        !replanned.scroll_mode,
{
}

} // verus!