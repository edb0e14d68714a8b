//! The first screen: the brand, the model and a prompt, centred.

use vstd::prelude::*;

use super::theme::{
    accent, bold, dim, fg, italic, line_view, plain, push_run, run, spec_fg, spec_italic, spec_plain,
    Color, Span, SpanView,
};
use super::ui::{blanks, brand, spaces};
use crate::text::{byte_len, byte_length};

verus! {

/// How far something `content_w` wide is moved in to stand in the middle.
pub open spec fn margin(width: u16, content_w: usize) -> u16 {
    let w = content_w as u16;
    if width < w {
        0
    } else {
        ((width - w) / 2) as u16
    }
}

/// How far something `content_w` wide is moved in to stand in the middle.
pub fn centre(width: u16, content_w: usize) -> (r: u16)
    ensures
        r == margin(width, content_w),
{
    let w: u16 = content_w as u16;
    if width < w {
        0
    } else {
        (width - w) / 2
    }
}

/// Whether there is only room for the prompt.
pub fn is_tiny(width: u16, height: u16) -> (r: bool)
    ensures
        r == (width < 40 || height < 10),
{
    width < 40 || height < 10
}

/// A row that is moved in by so many columns.
pub open spec fn moved_in(pad: u16, row: Seq<SpanView>) -> Seq<SpanView> {
    if pad > 0 {
        seq![run(spaces(pad as nat), spec_plain())] + row
    } else {
        row
    }
}

/// The prompt.
pub open spec fn prompt() -> Seq<SpanView> {
    seq![
        run("│ "@, spec_fg(Color::Teal)),
        run("> "@, spec_fg(Color::Teal)),
        run("press any key to start"@, spec_fg(Color::Fg)),
    ]
}

/// The start of a row that is moved in by so many columns.
fn start_row(pad: u16) -> (r: Vec<Span>)
    ensures
        line_view(r@) == moved_in(pad, Seq::empty()),
{
    let mut line: Vec<Span> = Vec::new();
    if pad > 0 {
        push_run(&mut line, blanks(pad as usize).as_str(), plain());
    }
    proof {
        assert(line_view(line@) =~= moved_in(pad, Seq::empty()));
    }
    line
}

/// Appends the prompt.
fn push_prompt(line: &mut Vec<Span>)
    ensures
        line_view(final(line)@) == line_view(old(line)@) + prompt(),
{
    let ghost start = line_view(line@);
    push_run(line, "│ ", accent());
    push_run(line, "> ", accent());
    push_run(line, "press any key to start", fg(Color::Fg));
    proof {
        assert(line_view(line@) =~= start + prompt());
    }
}

/// The prompt alone, where there is no room for more.
pub fn tiny_line() -> (r: Vec<Span>)
    ensures
        line_view(r@) == prompt(),
{
    let mut line: Vec<Span> = Vec::new();
    push_prompt(&mut line);
    proof {
        assert(line_view(line@) =~= prompt());
    }
    line
}

/// The brand, whose twelve letters stand in the middle.
pub fn brand_line(width: u16) -> (r: Vec<Span>)
    ensures
        line_view(r@) == moved_in(margin(width, 12), brand()),
{
    let mut line = start_row(centre(width, 12));
    push_run(&mut line, "co", bold(Color::Fg));
    push_run(&mut line, "_", accent());
    push_run(&mut line, "scientist", bold(Color::Fg));
    proof {
        assert(line_view(line@) =~= moved_in(margin(width, 12), brand()));
    }
    line
}

/// The row of the model. Its place goes by the number of its bytes.
pub open spec fn model_row(width: u16, model: Seq<char>) -> Seq<SpanView> {
    let text = "model · "@ + model;
    moved_in(
        margin(width, byte_len(text) as usize),
        seq![run(text, spec_italic(Color::Muted))],
    )
}

/// The row of the model; none before the first turn, when no model is known.
pub fn model_line(width: u16, model: &str) -> (r: Option<Vec<Span>>)
    ensures
        match r {
            Some(line) => model@.len() > 0 && line_view(line@) == model_row(width, model@),
            None => model@.len() == 0,
        },
{
    if model.is_empty() {
        return None;
    }
    let mut text = "model · ".to_owned();
    text.append(model);
    let mut line = start_row(centre(width, byte_length(text.as_str())));
    push_run(&mut line, text.as_str(), italic(Color::Muted));
    proof {
        assert(line_view(line@) =~= model_row(width, model@));
    }
    Some(line)
}

/// A rule of 32 dashes.
pub open spec fn rule_text() -> Seq<char> {
    "────────────────────────────────"@
}

/// The rule.
pub fn rule_line(width: u16) -> (r: Vec<Span>)
    ensures
        line_view(r@) == moved_in(
            margin(width, 32),
            seq![run(rule_text(), spec_fg(Color::Muted))],
        ),
{
    let mut line = start_row(centre(width, 32));
    push_run(&mut line, "────────────────────────────────", dim());
    proof {
        assert(line_view(line@) =~= moved_in(
            margin(width, 32),
            seq![run(rule_text(), spec_fg(Color::Muted))],
        ));
    }
    line
}

/// The row of the prompt. Its place goes by the 28 bytes that it takes.
pub fn prompt_line(width: u16) -> (r: Vec<Span>)
    ensures
        line_view(r@) == moved_in(margin(width, 28), prompt()),
{
    let mut line = start_row(centre(width, 28));
    push_prompt(&mut line);
    proof {
        assert(line_view(line@) =~= moved_in(margin(width, 28), prompt()));
    }
    line
}

/// The version in the corner, where the screen is wide enough for it.
pub fn version_corner(version: &str, width: u16) -> (r: Option<String>)
    ensures
        match r {
            Some(text) => text@ == "~ "@ + version@ && width >= byte_len("~ "@ + version@) as u16,
            None => width < byte_len("~ "@ + version@) as u16,
        },
{
    let mut text = "~ ".to_owned();
    text.append(version);
    let n: usize = byte_length(text.as_str());
    if width < n as u16 {
        None
    } else {
        Some(text)
    }
}

/// The rule has 32 dashes, and the prompt takes 28 bytes.
pub proof fn law_splash_widths()
    ensures
        rule_text().len() == 32,
        byte_len("│ "@) + byte_len("> "@) + byte_len("press any key to start"@) == 28,
{
    reveal_strlit("────────────────────────────────");
    reveal_strlit("│ ");
    reveal_strlit("> ");
    reveal_strlit("press any key to start");
    reveal_with_fuel(byte_len, 23);
}

/// What is put in the middle has as much room on its left as on its right, give or take one
/// column; what does not fit begins at the left.
pub proof fn law_splash_stands_in_the_middle(width: u16, content_w: u16, row: Seq<SpanView>)
    ensures
        content_w <= width ==> ({
            let left = margin(width, content_w as usize);
            let right = width - content_w - left;
            left <= right <= left + 1
        }),
        content_w > width ==> margin(width, content_w as usize) == 0,
        moved_in(0, row) == row,
        forall|pad: u16|
            pad > 0 ==> (#[trigger] moved_in(pad, row)).len() == row.len() + 1 && moved_in(
                pad,
                row,
            )[0].text.len() == pad && moved_in(pad, row).skip(1) == row,
{
    assert forall|pad: u16| pad > 0 implies (#[trigger] moved_in(pad, row)).len() == row.len() + 1
        && moved_in(pad, row)[0].text.len() == pad && moved_in(pad, row).skip(1) == row by {
        assert(moved_in(pad, row).skip(1) =~= row);
    }
}

/// The model is told by its name, last in its row.
pub proof fn law_splash_tells_the_model(width: u16, model: Seq<char>)
    ensures
        model_row(width, model).last().text == "model · "@ + model,
        prompt().last().text == "press any key to start"@,
{
}

} // verus!
