//! Markdown rendering for question prose: the document is parsed by an
//! outside library into a plain event stream, and a verified fold turns
//! that stream into terminal text with italic, bold, list and code-block
//! styling.

use vstd::prelude::*;
use crate::text::push_char;
use pulldown_cmark::{Event, Tag, TagEnd};

verus! {

/// One markdown event, in plain form.
#[derive(Clone, Debug)]
pub enum MdEvent {
    CodeBlockStart,
    CodeBlockEnd,
    EmphasisStart,
    EmphasisEnd,
    StrongStart,
    StrongEnd,
    ListStart,
    ItemStart,
    ListEnd,
    Text(String),
    Break,
    Other,
}

/// The mathematical image of an `MdEvent`.
pub ghost enum MdEventView {
    CodeBlockStart,
    CodeBlockEnd,
    EmphasisStart,
    EmphasisEnd,
    StrongStart,
    StrongEnd,
    ListStart,
    ItemStart,
    ListEnd,
    Text(Seq<char>),
    Break,
    Other,
}

impl View for MdEvent {
    type V = MdEventView;

    open spec fn view(&self) -> MdEventView {
        match self {
            MdEvent::CodeBlockStart => MdEventView::CodeBlockStart,
            MdEvent::CodeBlockEnd => MdEventView::CodeBlockEnd,
            MdEvent::EmphasisStart => MdEventView::EmphasisStart,
            MdEvent::EmphasisEnd => MdEventView::EmphasisEnd,
            MdEvent::StrongStart => MdEventView::StrongStart,
            MdEvent::StrongEnd => MdEventView::StrongEnd,
            MdEvent::ListStart => MdEventView::ListStart,
            MdEvent::ItemStart => MdEventView::ItemStart,
            MdEvent::ListEnd => MdEventView::ListEnd,
            MdEvent::Text(t) => MdEventView::Text(t@),
            MdEvent::Break => MdEventView::Break,
            MdEvent::Other => MdEventView::Other,
        }
    }
}

impl DeepView for MdEvent {
    type V = MdEventView;

    open spec fn deep_view(&self) -> MdEventView {
        self.view()
    }
}

/// The markdown event stream of a document. The parse depends on the text
/// alone.
pub uninterp spec fn md_events_of(s: Seq<char>) -> Seq<MdEventView>;

/// Relies on pulldown-cmark's `Parser`: the markdown events of the text,
/// here reduced variant by variant to their plain form.
#[verifier::external_body]
fn parse_markdown_events(text: &str) -> (r: Vec<MdEvent>)
    ensures
        r.deep_view() == md_events_of(text@),
{
    pulldown_cmark::Parser::new(text).map(|e| match e {
        Event::Start(Tag::CodeBlock(_)) => MdEvent::CodeBlockStart,
        Event::End(TagEnd::CodeBlock) => MdEvent::CodeBlockEnd,
        Event::Start(Tag::Emphasis) => MdEvent::EmphasisStart,
        Event::End(TagEnd::Emphasis) => MdEvent::EmphasisEnd,
        Event::Start(Tag::Strong) => MdEvent::StrongStart,
        Event::End(TagEnd::Strong) => MdEvent::StrongEnd,
        Event::Start(Tag::List(_)) => MdEvent::ListStart,
        Event::Start(Tag::Item) => MdEvent::ItemStart,
        Event::End(TagEnd::List(_)) => MdEvent::ListEnd,
        Event::Text(t) => MdEvent::Text(t.into_string()),
        Event::SoftBreak | Event::HardBreak => MdEvent::Break,
        _ => MdEvent::Other,
    }).collect()
}

/// Whether the text so far ends in a line break.
pub open spec fn ends_in_newline(acc: Seq<char>) -> bool {
    acc.len() > 0 && acc.last() == '\n'
}

/// The terminal text an event stream renders to, folded left to right over
/// the text built so far and whether a code block is open: code blocks are
/// indented and dimmed, emphasis and strong emphasis switch the matching
/// styles, list items get bullets, and breaks become line breaks.
pub open spec fn render_fold(events: Seq<MdEventView>, acc: Seq<char>, in_code: bool) -> Seq<char>
    decreases events.len(),
{
    if events.len() == 0 {
        acc
    } else {
        let rest = events.drop_first();
        match events[0] {
            MdEventView::CodeBlockStart => render_fold(rest, acc + "  "@, true),
            MdEventView::CodeBlockEnd => render_fold(rest, acc.push('\n'), false),
            MdEventView::EmphasisStart => render_fold(rest, acc + "\u{1b}[3m"@, in_code),
            MdEventView::EmphasisEnd => render_fold(rest, acc + "\u{1b}[23m"@, in_code),
            MdEventView::StrongStart => render_fold(rest, acc + "\u{1b}[1m"@, in_code),
            MdEventView::StrongEnd => render_fold(rest, acc + "\u{1b}[22m"@, in_code),
            MdEventView::ListStart => render_fold(
                rest,
                if ends_in_newline(acc) {
                    acc
                } else {
                    acc.push('\n')
                },
                in_code,
            ),
            MdEventView::ItemStart => render_fold(rest, acc + "\n\u{2022} "@, in_code),
            MdEventView::ListEnd => render_fold(rest, acc.push('\n'), in_code),
            MdEventView::Text(t) => render_fold(
                rest,
                if in_code {
                    acc + "\u{1b}[90m"@ + t + "\u{1b}[0m"@
                } else {
                    acc + t
                },
                in_code,
            ),
            MdEventView::Break => render_fold(rest, acc.push('\n'), in_code),
            MdEventView::Other => render_fold(rest, acc, in_code),
        }
    }
}

/// The terminal rendering of an event stream.
pub open spec fn rendered_markdown(events: Seq<MdEventView>) -> Seq<char> {
    render_fold(events, Seq::empty(), false)
}

/// Render a plain markdown event stream to terminal text.
pub fn render_events(events: &Vec<MdEvent>) -> (r: String)
    ensures
        r@ == rendered_markdown(events.deep_view()),
{
    let ghost evs = events.deep_view();
    let mut acc = String::new();
    let mut in_code = false;
    let mut ends_nl = false;
    let mut k: usize = 0;
    proof {
        assert(evs.skip(0) =~= evs);
    }
    while k < events.len()
        invariant
            k <= events.len(),
            evs == events.deep_view(),
            rendered_markdown(evs) == render_fold(evs.skip(k as int), acc@, in_code),
            ends_nl == ends_in_newline(acc@),
        decreases events.len() - k,
    {
        proof {
            assert(evs.skip(k as int).drop_first() =~= evs.skip(k + 1));
            assert(evs.skip(k as int)[0] == evs[k as int]);
            reveal_strlit("  ");
            reveal_strlit("\u{1b}[3m");
            reveal_strlit("\u{1b}[23m");
            reveal_strlit("\u{1b}[1m");
            reveal_strlit("\u{1b}[22m");
            reveal_strlit("\n\u{2022} ");
            reveal_strlit("\u{1b}[90m");
            reveal_strlit("\u{1b}[0m");
        }
        match &events[k] {
            MdEvent::CodeBlockStart => {
                acc.append("  ");
                in_code = true;
                ends_nl = false;
            },
            MdEvent::CodeBlockEnd => {
                push_char(&mut acc, '\n');
                in_code = false;
                ends_nl = true;
            },
            MdEvent::EmphasisStart => {
                acc.append("\u{1b}[3m");
                ends_nl = false;
            },
            MdEvent::EmphasisEnd => {
                acc.append("\u{1b}[23m");
                ends_nl = false;
            },
            MdEvent::StrongStart => {
                acc.append("\u{1b}[1m");
                ends_nl = false;
            },
            MdEvent::StrongEnd => {
                acc.append("\u{1b}[22m");
                ends_nl = false;
            },
            MdEvent::ListStart => {
                if !ends_nl {
                    push_char(&mut acc, '\n');
                    ends_nl = true;
                }
            },
            MdEvent::ItemStart => {
                acc.append("\n\u{2022} ");
                ends_nl = false;
            },
            MdEvent::ListEnd => {
                push_char(&mut acc, '\n');
                ends_nl = true;
            },
            MdEvent::Text(t) => {
                if in_code {
                    acc.append("\u{1b}[90m");
                    acc.append(t.as_str());
                    acc.append("\u{1b}[0m");
                    ends_nl = false;
                } else {
                    acc.append(t.as_str());
                    let n = t.as_str().unicode_len();
                    if n > 0 {
                        ends_nl = t.as_str().get_char(n - 1) == '\n';
                        proof {
                            assert(acc@.last() == t@.last());
                        }
                    }
                }
            },
            MdEvent::Break => {
                push_char(&mut acc, '\n');
                ends_nl = true;
            },
            MdEvent::Other => {},
        }
        k += 1;
    }
    proof {
        assert(evs.skip(evs.len() as int) =~= Seq::<MdEventView>::empty());
    }
    acc
}

/// Render a markdown document for the terminal: parse it to events and
/// fold those into styled text.
pub fn render_markdown(text: &str) -> (r: String)
    ensures
        r@ == rendered_markdown(md_events_of(text@)),
{
    let events = parse_markdown_events(text);
    render_events(&events)
}

} // verus!
