//! Styled text: what is written, and how it is to look.
//!
//! The renderers of this library produce [`Span`]s. Turning a span into the
//! escape sequences of a terminal is left to the `colored` crate, which looks
//! at the environment to decide whether to colour at all.

use vstd::prelude::*;
use colored::ColoredString;
use colored::Colorize;
use vstd::string::StringExecFns;

verus! {

/// How a piece of text is to look.
#[derive(Clone, Copy, Debug, PartialEq, Eq, Structural)]
pub enum Style {
    Plain,
    Bold,
    Dimmed,
    Cyan,
    Yellow,
    Green,
    GreenBold,
    RedBold,
}

/// A piece of text in one style.
#[derive(Clone, Debug, PartialEq, Eq)]
pub struct Span {
    pub text: String,
    pub style: Style,
}

/// A span as plain data.
pub struct Piece {
    pub text: Seq<char>,
    pub style: Style,
}

impl View for Span {
    type V = Piece;

    open spec fn view(&self) -> Piece {
        Piece { text: self.text@, style: self.style }
    }
}

impl DeepView for Span {
    type V = Piece;

    open spec fn deep_view(&self) -> Piece {
        self@
    }
}

/// `text` in `style`.
pub open spec fn piece(text: Seq<char>, style: Style) -> Piece {
    Piece { text, style }
}

/// `text` as it is.
pub open spec fn plain(text: Seq<char>) -> Piece {
    Piece { text, style: Style::Plain }
}

/// The parts one after another.
pub open spec fn joined(parts: Seq<Seq<char>>) -> Seq<char>
    decreases parts.len(),
{
    if parts.len() == 0 {
        Seq::empty()
    } else {
        joined(parts.drop_last()) + parts.last()
    }
}

/// The text of the pieces without their styles: what a reader sees.
pub open spec fn visible(pieces: Seq<Piece>) -> Seq<char>
    decreases pieces.len(),
{
    if pieces.len() == 0 {
        Seq::empty()
    } else {
        visible(pieces.drop_last()) + pieces.last().text
    }
}

/// Every piece is plain.
pub open spec fn all_plain(pieces: Seq<Piece>) -> bool {
    forall|i: int| 0 <= i < pieces.len() ==> (#[trigger] pieces[i]).style == Style::Plain
}

/// `parts` may be what painting `pieces` gives, part for piece: nothing is
/// known of a styled part, and a plain part is the text of its piece.
pub open spec fn paints(pieces: Seq<Piece>, parts: Seq<Seq<char>>) -> bool {
    &&& parts.len() == pieces.len()
    &&& forall|i: int|
        0 <= i < pieces.len() && (#[trigger] pieces[i]).style == Style::Plain ==> parts[i]
            == pieces[i].text
}

/// Appends `text` in `style` to `out`.
pub fn push_span(out: &mut Vec<Span>, text: String, style: Style)
    ensures
        final(out).deep_view() == old(out).deep_view().push(piece(text@, style)),
{
    out.push(Span { text, style });
    assert(out.deep_view() =~= old(out).deep_view().push(piece(text@, style)));
}

/// The `colored` crate's text with a colour and a style. Nothing is known
/// of what is inside one; it is made by the crate and handed back to it.
#[verifier::external_type_specification]
#[verifier::external_body]
pub struct ExColoredString(ColoredString);

/// `Colorize::bold` on a string slice. Nothing is claimed of the result,
/// which is carried to `shown`.
#[verifier::external_body]
fn bold(text: &str) -> ColoredString {
    text.bold()
}

/// `Colorize::dimmed` on a string slice. Nothing is claimed of the result,
/// which is carried to `shown`.
#[verifier::external_body]
fn dimmed(text: &str) -> ColoredString {
    text.dimmed()
}

/// `Colorize::cyan` on a string slice. Nothing is claimed of the result,
/// which is carried to `shown`.
#[verifier::external_body]
fn cyan(text: &str) -> ColoredString {
    text.cyan()
}

/// `Colorize::yellow` on a string slice. Nothing is claimed of the result,
/// which is carried to `shown`.
#[verifier::external_body]
fn yellow(text: &str) -> ColoredString {
    text.yellow()
}

/// `Colorize::green` on a string slice. Nothing is claimed of the result,
/// which is carried to `shown`.
#[verifier::external_body]
fn green(text: &str) -> ColoredString {
    text.green()
}

/// `Colorize::red` on a string slice. Nothing is claimed of the result,
/// which is carried to `shown`.
#[verifier::external_body]
fn red(text: &str) -> ColoredString {
    text.red()
}

/// `Colorize::bold` on text that has a colour already. Nothing is claimed
/// of the result, which is carried to `shown`.
#[verifier::external_body]
fn embolden(text: ColoredString) -> ColoredString {
    text.bold()
}

/// The `Display` form of a `ColoredString`. Whether it holds escape
/// sequences depends on the terminal and the environment, so nothing is
/// claimed of it.
#[verifier::external_body]
fn shown(text: &ColoredString) -> String {
    format!("{}", text)
}

/// The span as a terminal is to receive it. A plain span is its text; of a
/// styled one the `colored` crate decides.
pub fn paint(span: &Span) -> (out: String)
    ensures
        span.style == Style::Plain ==> out@ == span.text@,
{
    let text = span.text.as_str();
    match span.style {
        Style::Plain => span.text.clone(),
        Style::Bold => shown(&bold(text)),
        Style::Dimmed => shown(&dimmed(text)),
        Style::Cyan => shown(&cyan(text)),
        Style::Yellow => shown(&yellow(text)),
        Style::Green => shown(&green(text)),
        Style::GreenBold => shown(&embolden(green(text))),
        Style::RedBold => shown(&embolden(red(text))),
    }
}

/// The spans as a terminal is to receive them, one after another.
pub fn to_ansi(spans: &Vec<Span>) -> (out: String)
    ensures
        exists|parts: Seq<Seq<char>>| paints(spans.deep_view(), parts) && out@ == joined(parts),
{
    let mut out = String::new();
    let ghost mut parts: Seq<Seq<char>> = Seq::empty();
    let mut i: usize = 0;
    while i < spans.len()
        invariant
            i <= spans.len(),
            paints(spans.deep_view().take(i as int), parts),
            out@ == joined(parts),
        decreases spans.len() - i,
    {
        let part = paint(&spans[i]);
        proof {
            let before = parts;
            parts = parts.push(part@);
            assert(parts.drop_last() =~= before);
            assert(spans.deep_view().take(i + 1)[i as int] == spans[i as int]@);
        }
        out.append(part.as_str());
        i = i + 1;
    }
    assert(spans.deep_view().take(i as int) =~= spans.deep_view());
    out
}

/// Of one piece a reader sees its text.
pub proof fn lemma_visible_one(p: Piece)
    ensures
        visible(seq![p]) == p.text,
{
    assert(seq![p].drop_last() =~= Seq::<Piece>::empty());
    assert(visible(seq![p]) =~= visible(seq![p].drop_last()) + p.text);
}

/// What a reader sees of pieces put together is what is seen of the first
/// followed by what is seen of the second.
pub proof fn lemma_visible_adds(a: Seq<Piece>, b: Seq<Piece>)
    ensures
        visible(a + b) == visible(a) + visible(b),
    decreases b.len(),
{
    if b.len() == 0 {
        assert(a + b =~= a);
        assert(visible(a) + visible(b) =~= visible(a));
    } else {
        lemma_visible_adds(a, b.drop_last());
        assert((a + b).drop_last() =~= a + b.drop_last());
        assert(visible(a + b) =~= visible(a) + visible(b));
    }
}

/// Painted plain pieces are their text, whatever the terminal: where every
/// piece is plain, the painted parts together are what a reader sees.
pub proof fn lemma_plain_is_unchanged(pieces: Seq<Piece>, parts: Seq<Seq<char>>)
    requires
        all_plain(pieces),
        paints(pieces, parts),
    ensures
        joined(parts) == visible(pieces),
    decreases pieces.len(),
{
    if pieces.len() > 0 {
        lemma_plain_is_unchanged(pieces.drop_last(), parts.drop_last());
    }
}

} // verus!
