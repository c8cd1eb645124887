//! Terminal output as lines of styled spans; the caller turns styles into colors.
use vstd::prelude::*;

use crate::text::{chars_of, string_of, u64_decimal, decimal};

verus! {

/// How a span of terminal text is shown.
#[derive(Debug, Clone, Copy, PartialEq, Eq, Structural)]
pub enum Style {
    Plain,
    /// Bold cyan, for a command's title.
    Title,
    Green,
    Red,
    Yellow,
    Dimmed,
    GreenBold,
    RedBold,
    YellowBold,
}

/// A piece of a line with one style.
#[derive(Debug)]
pub struct Span {
    pub text: String,
    pub style: Style,
}

pub open spec fn span_view(s: Span) -> (Seq<char>, Style) {
    (s.text@, s.style)
}

/// A line as text and styles.
pub open spec fn line_view(l: Vec<Span>) -> Seq<(Seq<char>, Style)> {
    l@.map_values(|s: Span| span_view(s))
}

/// Lines as text and styles.
pub open spec fn lines_view(ls: Seq<Vec<Span>>) -> Seq<Seq<(Seq<char>, Style)>> {
    ls.map_values(|l: Vec<Span>| line_view(l))
}

/// `n` spaces.
pub open spec fn spaces(n: int) -> Seq<char> {
    Seq::new(if n > 0 { n as nat } else { 0 }, |i: int| ' ')
}

/// `s` filled with spaces on the right to at least `w` characters, as `{:<w}` does.
pub open spec fn pad_right(s: Seq<char>, w: int) -> Seq<char> {
    s + spaces(w - s.len())
}

/// A span of the characters `text`.
pub fn span_of(text: &Vec<char>, style: Style) -> (res: Span)
    ensures
        span_view(res) == (text@, style),
{
    Span { text: string_of(text), style }
}

/// A span of the text `text`.
pub fn span(text: &str, style: Style) -> (res: Span)
    ensures
        span_view(res) == (text@, style),
{
    Span { text: string_of(&chars_of(text)), style }
}

/// Appends a span to a line.
pub fn push_span(line: &mut Vec<Span>, s: Span)
    ensures
        line_view(*final(line)) == line_view(*old(line)).push(span_view(s)),
{
    line.push(s);
    assert(line_view(*line) =~= line_view(*old(line)).push(span_view(s)));
}

/// Appends a line to the output.
pub fn push_line(out: &mut Vec<Vec<Span>>, l: Vec<Span>)
    ensures
        lines_view(final(out)@) == lines_view(old(out)@).push(line_view(l)),
{
    out.push(l);
    assert(lines_view(out@) =~= lines_view(old(out)@).push(line_view(l)));
}

/// A line of one span.
pub fn line1(s: Span) -> (res: Vec<Span>)
    ensures
        line_view(res) == seq![span_view(s)],
{
    let mut l: Vec<Span> = Vec::new();
    push_span(&mut l, s);
    assert(line_view(l) =~= seq![span_view(s)]);
    l
}

/// A line without spans.
pub fn empty_line() -> (res: Vec<Span>)
    ensures
        line_view(res) == Seq::<(Seq<char>, Style)>::empty(),
{
    let l: Vec<Span> = Vec::new();
    assert(line_view(l) =~= Seq::<(Seq<char>, Style)>::empty());
    l
}

/// `v` filled with spaces on the right to at least `w` characters.
pub fn pad(v: &Vec<char>, w: usize) -> (res: Vec<char>)
    ensures
        res@ == pad_right(v@, w as int),
{
    let mut out = v.clone();
    while out.len() < w
        invariant
            v@.len() <= out@.len(),
            out@.len() <= if v@.len() < w { w as int } else { v@.len() as int },
            out@ == v@ + spaces(out@.len() - v@.len()),
        decreases w - out.len(),
    {
        out.push(' ');
        assert(v@ + spaces(out@.len() - v@.len()) =~= (v@ + spaces(out@.len() - 1 - v@.len())).push(' '));
    }
    assert(out@ =~= pad_right(v@, w as int));
    out
}

/// The decimal writing of `n` as characters.
pub fn number(n: u64) -> (res: Vec<char>)
    ensures
        res@ == decimal(n as nat),
{
    u64_decimal(n)
}

} // verus!
