//! The palette, and styled text as plain data.
//!
//! One soft teal accent on a cool monochrome. `Accent2` marks code, `Section`
//! marks structural chrome, and the status colours carry meaning.

use vstd::prelude::*;

verus! {

/// A colour of the palette.
#[derive(Clone, Copy, Debug, PartialEq, Eq, Structural)]
pub enum Color {
    Bg,
    BgSurface,
    BgOverlay,
    Fg,
    Muted,
    Emphasis,
    Teal,
    TealDim,
    Success,
    Warning,
    Error,
    Accent2,
    Section,
    Blue,
}

impl Color {
    /// The red, green and blue parts of the colour.
    pub open spec fn spec_rgb(self) -> (u8, u8, u8) {
        match self {
            Color::Bg => (0x0e, 0x11, 0x16),
            Color::BgSurface => (0x14, 0x18, 0x1f),
            Color::BgOverlay => (0x1b, 0x20, 0x29),
            Color::Fg => (0xdc, 0xe0, 0xe8),
            Color::Muted => (0x5c, 0x63, 0x70),
            Color::Emphasis => (0xff, 0xff, 0xff),
            Color::Teal => (0x5f, 0xb3, 0xb3),
            Color::TealDim => (0x3a, 0x6e, 0x6e),
            Color::Success => (0x7a, 0xc8, 0xa0),
            Color::Warning => (0xd9, 0xb3, 0x6a),
            Color::Error => (0xc8, 0x6a, 0x6a),
            Color::Accent2 => (0xd9, 0xa3, 0x73),
            Color::Section => (0x7a, 0x8f, 0x9f),
            Color::Blue => (0x7a, 0xb8, 0xff),
        }
    }

    /// The red, green and blue parts of the colour.
    pub fn rgb(self) -> (r: (u8, u8, u8))
        ensures
            r == self.spec_rgb(),
    {
        match self {
            Color::Bg => (0x0e, 0x11, 0x16),
            Color::BgSurface => (0x14, 0x18, 0x1f),
            Color::BgOverlay => (0x1b, 0x20, 0x29),
            Color::Fg => (0xdc, 0xe0, 0xe8),
            Color::Muted => (0x5c, 0x63, 0x70),
            Color::Emphasis => (0xff, 0xff, 0xff),
            Color::Teal => (0x5f, 0xb3, 0xb3),
            Color::TealDim => (0x3a, 0x6e, 0x6e),
            Color::Success => (0x7a, 0xc8, 0xa0),
            Color::Warning => (0xd9, 0xb3, 0x6a),
            Color::Error => (0xc8, 0x6a, 0x6a),
            Color::Accent2 => (0xd9, 0xa3, 0x73),
            Color::Section => (0x7a, 0x8f, 0x9f),
            Color::Blue => (0x7a, 0xb8, 0xff),
        }
    }
}

/// Colours and attributes of a run of text. What is `None` or `false` is left
/// as the terminal has it.
#[derive(Clone, Copy, Debug, PartialEq, Eq, Structural)]
pub struct Style {
    pub fg: Option<Color>,
    pub bg: Option<Color>,
    pub bold: bool,
    pub italic: bool,
    pub underlined: bool,
    pub crossed_out: bool,
}

/// The style that changes nothing.
pub open spec fn spec_plain() -> Style {
    Style {
        fg: None,
        bg: None,
        bold: false,
        italic: false,
        underlined: false,
        crossed_out: false,
    }
}

/// A foreground colour and nothing else.
pub open spec fn spec_fg(c: Color) -> Style {
    Style { fg: Some(c), ..spec_plain() }
}

/// A bold foreground colour.
pub open spec fn spec_bold(c: Color) -> Style {
    Style { bold: true, ..spec_fg(c) }
}

/// An italic foreground colour.
pub open spec fn spec_italic(c: Color) -> Style {
    Style { italic: true, ..spec_fg(c) }
}

/// The style that changes nothing.
pub fn plain() -> (s: Style)
    ensures
        s == spec_plain(),
{
    Style {
        fg: None,
        bg: None,
        bold: false,
        italic: false,
        underlined: false,
        crossed_out: false,
    }
}

/// A foreground colour and nothing else.
pub fn fg(c: Color) -> (s: Style)
    ensures
        s == spec_fg(c),
{
    Style { fg: Some(c), ..plain() }
}

/// A bold foreground colour.
pub fn bold(c: Color) -> (s: Style)
    ensures
        s == spec_bold(c),
{
    Style { bold: true, ..fg(c) }
}

/// An italic foreground colour.
pub fn italic(c: Color) -> (s: Style)
    ensures
        s == spec_italic(c),
{
    Style { italic: true, ..fg(c) }
}

/// Secondary text.
pub fn dim() -> (s: Style)
    ensures
        s == spec_fg(Color::Muted),
{
    fg(Color::Muted)
}

/// The accent.
pub fn accent() -> (s: Style)
    ensures
        s == spec_fg(Color::Teal),
{
    fg(Color::Teal)
}

/// Structural chrome.
pub fn section() -> (s: Style)
    ensures
        s == spec_fg(Color::Section),
{
    fg(Color::Section)
}

/// A run of text in one style.
pub struct Span {
    pub text: String,
    pub style: Style,
}

/// What a [`Span`] shows.
pub struct SpanView {
    pub text: Seq<char>,
    pub style: Style,
}

impl View for Span {
    type V = SpanView;

    open spec fn view(&self) -> SpanView {
        SpanView { text: self.text@, style: self.style }
    }
}

/// A run of text as the contracts write it.
pub open spec fn run(text: Seq<char>, style: Style) -> SpanView {
    SpanView { text, style }
}

/// What a line of spans shows.
pub open spec fn line_view(line: Seq<Span>) -> Seq<SpanView> {
    line.map_values(|s: Span| s@)
}

/// What a list of lines shows.
pub open spec fn lines_view(lines: Seq<Vec<Span>>) -> Seq<Seq<SpanView>> {
    lines.map_values(|l: Vec<Span>| line_view(l@))
}

/// A span of the text `text` in the style `style`.
pub fn styled(text: &str, style: Style) -> (s: Span)
    ensures
        s@ == run(text@, style),
{
    Span { text: text.to_owned(), style }
}

/// Appends a span to a line.
pub fn push_run(line: &mut Vec<Span>, text: &str, style: Style)
    ensures
        line_view(final(line)@) == line_view(old(line)@).push(run(text@, style)),
{
    let ghost before = line@;
    line.push(styled(text, style));
    proof {
        assert(line_view(line@) =~= line_view(before).push(run(text@, style)));
    }
}

/// A line of one span.
pub fn line_of(text: &str, style: Style) -> (line: Vec<Span>)
    ensures
        line_view(line@) == seq![run(text@, style)],
{
    let mut line: Vec<Span> = Vec::new();
    push_run(&mut line, text, style);
    proof {
        assert(line_view(line@) =~= seq![run(text@, style)]);
    }
    line
}

/// Appends a line to a list of lines.
pub fn push_line(lines: &mut Vec<Vec<Span>>, line: Vec<Span>)
    ensures
        lines_view(final(lines)@) == lines_view(old(lines)@).push(line_view(line@)),
{
    let ghost before = lines@;
    let ghost shown = line_view(line@);
    lines.push(line);
    proof {
        assert(lines_view(lines@) =~= lines_view(before).push(shown));
    }
}

/// A style sets just what it is named for, besides its colour.
pub proof fn law_what_styles_set(c: Color)
    ensures
        spec_fg(c).fg == Some(c) && !spec_fg(c).bold && !spec_fg(c).italic,
        spec_bold(c).fg == Some(c) && spec_bold(c).bold && !spec_bold(c).italic,
        spec_italic(c).fg == Some(c) && spec_italic(c).italic && !spec_italic(c).bold,
        spec_plain().fg is None && !spec_plain().bold && !spec_plain().italic,
        spec_fg(c).bg is None && !spec_fg(c).underlined && !spec_fg(c).crossed_out,
        spec_plain().bg is None && !spec_plain().underlined && !spec_plain().crossed_out,
{
}

/// No two colours look alike.
pub proof fn law_colours_are_told_apart(a: Color, b: Color)
    requires
        a.spec_rgb() == b.spec_rgb(),
    ensures
        a == b,
{
}

} // verus!
