//! Colored text: spans, and their rendering for a terminal.

use crate::decimal::digit_char;
use crate::text::{chars_of, lemma_replaced_nothing, push_all, replaced, string_of};
use crate::theme::Color;
use colored::Colorize;
use vstd::prelude::*;

verus! {

/// A piece of output: a text, and the color to show it in, if any.
#[derive(Debug)]
pub struct Span {
    pub text: String,
    pub color: Option<Color>,
}

/// What a span holds, with its text as a character sequence.
pub struct SpanView {
    pub text: Seq<char>,
    pub color: Option<Color>,
}

impl View for Span {
    type V = SpanView;

    open spec fn view(&self) -> SpanView {
        SpanView { text: self.text@, color: self.color }
    }
}

impl SpanView {
    /// A span without a color.
    pub open spec fn plain(text: Seq<char>) -> SpanView {
        SpanView { text, color: None }
    }

    /// A span in a color.
    pub open spec fn colored(text: Seq<char>, color: Color) -> SpanView {
        SpanView { text, color: Some(color) }
    }
}

/// The views of a sequence of spans.
pub open spec fn span_views(spans: Seq<Span>) -> Seq<SpanView> {
    Seq::new(spans.len(), |i: int| spans[i]@)
}

/// The number of a color among the eight standard ones.
pub open spec fn color_index(color: Color) -> int {
    match color {
        Color::Black => 0,
        Color::Red => 1,
        Color::Green => 2,
        Color::Yellow => 3,
        Color::Blue => 4,
        Color::Magenta => 5,
        Color::Cyan => 6,
        Color::White => 7,
    }
}

/// The control sequence that switches the foreground to a color.
pub open spec fn color_start(color: Color) -> Seq<char> {
    seq!['\u{1b}', '[', '3', digit_char(color_index(color)), 'm']
}

/// The control sequence that switches all attributes off.
pub open spec fn color_reset() -> Seq<char> {
    seq!['\u{1b}', '[', '0', 'm']
}

/// `text` as it stands inside a color: after every reset sequence that
/// the text itself holds, the color starts again.
pub open spec fn recolored(text: Seq<char>, color: Color) -> Seq<char> {
    replaced(text, color_reset(), color_reset() + color_start(color))
}

/// Whether `out` shows `text` in `color`: either as it is, where colors
/// are off, or between the sequence that starts the color and the one
/// that resets it, with the color kept up inside.
pub open spec fn painted(text: Seq<char>, color: Color, out: Seq<char>) -> bool {
    out == text || out == color_start(color) + recolored(text, color) + color_reset()
}

/// A text without an escape character stands inside a color as it is.
pub proof fn lemma_recolored_plain(text: Seq<char>, color: Color)
    requires
        !text.contains('\u{1b}'),
    ensures
        recolored(text, color) == text,
{
    lemma_replaced_nothing(text, color_reset(), color_reset() + color_start(color), 0);
    assert(text.subrange(0, text.len() as int) == text);
}

/// Whether `out` shows a span: a span without color as it is, one with a
/// color painted.
pub open spec fn shows(span: SpanView, out: Seq<char>) -> bool {
    match span.color {
        None => out == span.text,
        Some(c) => painted(span.text, c, out),
    }
}

/// All parts, one after the other.
pub open spec fn concat(parts: Seq<Seq<char>>) -> Seq<char>
    decreases parts.len(),
{
    if parts.len() == 0 {
        Seq::empty()
    } else {
        concat(parts.drop_last()) + parts.last()
    }
}

/// Whether `out` shows the spans in order: it is made of one part for
/// each span, and each part shows its span.
pub open spec fn rendering_of(spans: Seq<SpanView>, out: Seq<char>) -> bool {
    exists|parts: Seq<Seq<char>>|
        {
            &&& parts.len() == spans.len()
            &&& forall|k: int| 0 <= k < spans.len() ==> shows(spans[k], #[trigger] parts[k])
            &&& out == concat(parts)
        }
}

/// Calls `colored::Colorize::color` on `text` and formats the result. The
/// crate decides by its global settings whether colors are on. Where
/// they are off the text comes back as it is. Where they are on it comes
/// back between `ESC [ 3n m`, with `n` the number of the color, and the
/// reset sequence `ESC [ 0 m`, and the first of the two is put again
/// after every reset sequence that the text itself holds.
#[verifier::external_body]
fn paint(text: &str, color: Color) -> (r: String)
    ensures
        painted(text@, color, r@),
{
    let c = match color {
        Color::Black => colored::Color::Black,
        Color::Red => colored::Color::Red,
        Color::Green => colored::Color::Green,
        Color::Yellow => colored::Color::Yellow,
        Color::Blue => colored::Color::Blue,
        Color::Magenta => colored::Color::Magenta,
        Color::Cyan => colored::Color::Cyan,
        Color::White => colored::Color::White,
    };
    text.color(c).to_string()
}

/// Puts rendered parts together, in order.
pub fn join_parts(parts: &[String]) -> (r: String)
    ensures
        r@ == concat(Seq::new(parts@.len(), |i: int| parts@[i]@)),
{
    let ghost views = Seq::new(parts@.len(), |i: int| parts@[i]@);
    let mut out: Vec<char> = Vec::new();
    let mut i: usize = 0;
    while i < parts.len()
        invariant
            i <= parts@.len(),
            views == Seq::new(parts@.len(), |i: int| parts@[i]@),
            out@ == concat(views.take(i as int)),
        decreases parts@.len() - i,
    {
        let chars = chars_of(parts[i].as_str());
        push_all(&mut out, chars.as_slice());
        assert(views.take(i + 1).drop_last() == views.take(i as int));
        i += 1;
    }
    assert(views.take(parts@.len() as int) == views);
    string_of(out.as_slice())
}

/// Shows one span: its text, painted where the span has a color.
pub fn render_span(span: &Span) -> (r: String)
    ensures
        shows(span@, r@),
{
    match span.color {
        None => span.text.clone(),
        Some(c) => paint(span.text.as_str(), c),
    }
}

/// Shows spans one after the other.
pub fn render(spans: &[Span]) -> (r: String)
    ensures
        rendering_of(span_views(spans@), r@),
{
    let mut parts: Vec<String> = Vec::new();
    let mut i: usize = 0;
    while i < spans.len()
        invariant
            i <= spans@.len(),
            parts@.len() == i,
            forall|k: int| 0 <= k < i ==> shows(spans@[k]@, (#[trigger] parts@[k])@),
        decreases spans@.len() - i,
    {
        parts.push(render_span(&spans[i]));
        i += 1;
    }
    let r = join_parts(parts.as_slice());
    proof {
        let witness = Seq::new(parts@.len(), |i: int| parts@[i]@);
        assert forall|k: int| 0 <= k < spans@.len() implies shows(
            span_views(spans@)[k],
            #[trigger] witness[k],
        ) by {
            assert(shows(spans@[k]@, parts@[k]@));
        }
        assert(witness.len() == span_views(spans@).len());
    }
    r
}

} // verus!
