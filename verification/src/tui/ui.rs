//! What the front end draws, as styled lines.
//!
//! Every panel is a function from the state to lines. The chat shows a label row
//! and a body for each entry: `› you` for the user, a knob and the agent's name
//! for an answer, a hairline for a tool call and a dot for a system line.

use vstd::prelude::*;

use super::app::{
    agent_name, AppState, AppView, Busy, ChatMsg, ChatView, Focus, MemoryEntry, MemoryView,
    TaskEntry, TaskStatus, TaskView,
};
use super::keys::ChatMetrics;
use super::markdown::{md_events, render_markdown, rendered, spec_graded_palette};
use super::theme::{
    accent, bold, dim, fg, italic, line_of, line_view, lines_view, plain, push_line, push_run, run,
    spec_bold, spec_fg, spec_italic, spec_plain, Color, Span, SpanView, Style,
};
use crate::agents::{agent_at, all_agents, AGENT_COUNT};
use crate::marker::skill::{compact_json, json_compact};
use crate::text::{
    byte_prefix, chars_of, decimal, opt_view, push_decimal, str_eq, take_bytes,
};

verus! {

/// The smallest terminal that is drawn to.
pub const MIN_WIDTH: u16 = 60;

pub const MIN_HEIGHT: u16 = 20;

/// From this width on the list of agents has its own column.
pub const WIDE: u16 = 100;

// ------------------------------------------------------------------- layout

/// Which screen is drawn.
#[derive(Clone, Copy, Debug, PartialEq, Eq, Structural)]
pub enum Screen {
    TooSmall,
    /// The panels with the help over them.
    Help,
    Splash,
    Main,
}

/// The screen of a terminal with this size.
pub open spec fn screen_of(width: u16, height: u16, s: AppView) -> Screen {
    if width < MIN_WIDTH || height < MIN_HEIGHT {
        Screen::TooSmall
    } else if s.show_help {
        Screen::Help
    } else if s.show_splash {
        Screen::Splash
    } else {
        Screen::Main
    }
}

/// Which screen is drawn on a terminal with this size.
pub fn screen(width: u16, height: u16, state: &AppState) -> (r: Screen)
    ensures
        r == screen_of(width, height, state@),
{
    if width < MIN_WIDTH || height < MIN_HEIGHT {
        Screen::TooSmall
    } else if state.show_help {
        Screen::Help
    } else if state.show_splash {
        Screen::Splash
    } else {
        Screen::Main
    }
}

/// Whether the list of agents has its own column.
pub fn shows_agents(width: u16) -> (r: bool)
    ensures
        r == (width >= WIDE),
{
    width >= WIDE
}

/// A part of the screen.
#[derive(Clone, Copy, Debug, PartialEq, Eq, Structural)]
pub struct Area {
    pub x: u16,
    pub y: u16,
    pub width: u16,
    pub height: u16,
}

/// Where the help stands: in the middle, at most 72 by 22.
pub fn help_area(area: Area) -> (r: Area)
    requires
        area.x + area.width <= u16::MAX,
        area.y + area.height <= u16::MAX,
    ensures
        r.width == (if area.width < 8 {
            0int
        } else if area.width - 8 < 72 {
            area.width - 8
        } else {
            72
        }),
        r.height == (if area.height < 4 {
            0int
        } else if area.height - 4 < 22 {
            area.height - 4
        } else {
            22
        }),
        r.x == area.x + (area.width - r.width) / 2,
        r.y == area.y + (area.height - r.height) / 2,
{
    let width: u16 = if area.width < 8 {
        0
    } else if area.width - 8 < 72 {
        area.width - 8
    } else {
        72
    };
    let height: u16 = if area.height < 4 {
        0
    } else if area.height - 4 < 22 {
        area.height - 4
    } else {
        22
    };
    Area {
        x: area.x + (area.width - width) / 2,
        y: area.y + (area.height - height) / 2,
        width,
        height,
    }
}

/// The help lies inside the screen.
pub proof fn law_help_fits(area: Area, help: Area)
    requires
        area.x + area.width <= u16::MAX,
        area.y + area.height <= u16::MAX,
        help.width <= area.width,
        help.height <= area.height,
        help.x == area.x + (area.width - help.width) / 2,
        help.y == area.y + (area.height - help.height) / 2,
    ensures
        area.x <= help.x && help.x + help.width <= area.x + area.width,
        area.y <= help.y && help.y + help.height <= area.y + area.height,
{
}

// ------------------------------------------------------------------ spinner

/// A frame of the spinner that says that work goes on.
pub open spec fn busy_glyph(i: usize) -> Seq<char> {
    let k = i % 10;
    if k == 0 {
        "⠋"@
    } else if k == 1 {
        "⠙"@
    } else if k == 2 {
        "⠹"@
    } else if k == 3 {
        "⠸"@
    } else if k == 4 {
        "⠼"@
    } else if k == 5 {
        "⠴"@
    } else if k == 6 {
        "⠦"@
    } else if k == 7 {
        "⠧"@
    } else if k == 8 {
        "⠇"@
    } else {
        "⠏"@
    }
}

/// A frame of the spinner that says that work goes on.
pub fn busy_frame(i: usize) -> (r: &'static str)
    ensures
        r@ == busy_glyph(i),
{
    let k: usize = i % 10;
    if k == 0 {
        "⠋"
    } else if k == 1 {
        "⠙"
    } else if k == 2 {
        "⠹"
    } else if k == 3 {
        "⠸"
    } else if k == 4 {
        "⠼"
    } else if k == 5 {
        "⠴"
    } else if k == 6 {
        "⠦"
    } else if k == 7 {
        "⠧"
    } else if k == 8 {
        "⠇"
    } else {
        "⠏"
    }
}

/// A frame of the quiet spinner in the status bar.
pub open spec fn quiet_glyph(i: usize) -> Seq<char> {
    let k = i % 8;
    if k == 3 {
        "✦"@
    } else if k == 6 {
        "✧"@
    } else {
        "·"@
    }
}

/// A frame of the quiet spinner in the status bar.
pub fn quiet_frame(i: usize) -> (r: &'static str)
    ensures
        r@ == quiet_glyph(i),
{
    let k: usize = i % 8;
    if k == 3 {
        "✦"
    } else if k == 6 {
        "✧"
    } else {
        "·"
    }
}

// --------------------------------------------------------------- small parts

/// The first eight bytes of an id, as far as whole characters reach.
pub fn short_id(s: &str) -> (r: String)
    ensures
        r@ == byte_prefix(s@, 8),
{
    take_bytes(s, 8)
}

/// What an agent does, in a few words.
pub open spec fn role_hint(name: Seq<char>) -> Seq<char> {
    if name == "supervisor"@ {
        "plan + dispatch"@
    } else if name == "generation"@ {
        "novel hypotheses"@
    } else if name == "reflection"@ {
        "review + verify"@
    } else if name == "ranking"@ {
        "pairwise ELO"@
    } else if name == "evolution"@ {
        "combine + simplify"@
    } else if name == "metareview"@ {
        "synthesis + verdict"@
    } else {
        ""@
    }
}

/// What an agent does, in a few words.
pub fn role_one_liner(name: &str) -> (r: &'static str)
    ensures
        r@ == role_hint(name@),
{
    if str_eq(name, "supervisor") {
        "plan + dispatch"
    } else if str_eq(name, "generation") {
        "novel hypotheses"
    } else if str_eq(name, "reflection") {
        "review + verify"
    } else if str_eq(name, "ranking") {
        "pairwise ELO"
    } else if str_eq(name, "evolution") {
        "combine + simplify"
    } else if str_eq(name, "metareview") {
        "synthesis + verdict"
    } else {
        ""
    }
}

/// The name of a panel in the footer.
pub open spec fn focus_name(f: Focus) -> Seq<char> {
    match f {
        Focus::Input => "input"@,
        Focus::Chat => "chat"@,
        Focus::Agents => "agents"@,
        Focus::SidebarTasks => "tasks"@,
        Focus::SidebarMemory => "memory"@,
    }
}

/// The name of a panel in the footer.
pub fn focus_label(f: Focus) -> (r: &'static str)
    ensures
        r@ == focus_name(f),
{
    match f {
        Focus::Input => "input",
        Focus::Chat => "chat",
        Focus::Agents => "agents",
        Focus::SidebarTasks => "tasks",
        Focus::SidebarMemory => "memory",
    }
}

/// How many of the ten cells of a bar are filled.
pub open spec fn filled_cells(value: usize, max: usize) -> int {
    if max == 0 {
        0
    } else if value >= max {
        10
    } else {
        value * 10 / max as int
    }
}

/// A bar of ten cells in brackets.
pub open spec fn bar(value: usize, max: usize) -> Seq<char> {
    seq!['['] + Seq::new(
        10,
        |i: int|
            if i < filled_cells(value, max) {
                '█'
            } else {
                '░'
            },
    ) + seq![']']
}

/// A bar of ten cells in brackets, filled by the share of `value` in `max`.
pub fn mini_bar(value: usize, max: usize) -> (r: String)
    requires
        value < max ==> value <= usize::MAX / 10,
    ensures
        r@ == bar(value, max),
{
    let cells: usize = if max == 0 {
        0
    } else if value >= max {
        10
    } else {
        value * 10 / max
    };
    let mut s = String::new();
    s.push('[');
    let mut i: usize = 0;
    let ghost want = bar(value, max);
    proof {
        assert(s@ =~= want.take(1));
    }
    while i < 10
        invariant
            i <= 10,
            cells == filled_cells(value, max),
            want == bar(value, max),
            s@ == want.take(i + 1),
        decreases 10 - i,
    {
        s.push(
            if i < cells {
                '█'
            } else {
                '░'
            },
        );
        proof {
            assert(want[i + 1] == if i < cells {
                '█'
            } else {
                '░'
            });
            assert(want.take(i + 2) =~= want.take(i + 1).push(want[i + 1]));
        }
        i += 1;
    }
    s.push(']');
    proof {
        assert(s@ =~= want);
    }
    s
}

/// A bar never has more than ten filled cells, and none without a maximum.
pub proof fn law_bar_is_full_at_most(value: usize, max: usize)
    ensures
        0 <= filled_cells(value, max) <= 10,
        max > 0 && value >= max ==> filled_cells(value, max) == 10,
        bar(value, max).len() == 12,
{
    if max > 0 && value < max {
        assert(value * 10 / (max as int) <= 10) by (nonlinear_arith)
            requires
                0 <= value < max,
        ;
        assert(0 <= value * 10 / (max as int)) by (nonlinear_arith)
            requires
                0 <= value < max,
        ;
    }
}

/// The title of a panel, with a number behind it where there is one.
pub open spec fn title_of(title: Seq<char>, badge: Option<usize>) -> Seq<char> {
    match badge {
        Some(n) => if n > 0 {
            " "@ + title + " · "@ + decimal(n as nat) + " "@
        } else {
            " "@ + title + " "@
        },
        None => " "@ + title + " "@,
    }
}

/// The title of a panel, with a number behind it where there is one.
pub fn panel_title(title: &str, badge: Option<usize>) -> (r: String)
    ensures
        r@ == title_of(title@, badge),
{
    let mut s = " ".to_owned();
    s.append(title);
    match badge {
        Some(n) => {
            if n > 0 {
                s.append(" · ");
                push_decimal(&mut s, n as u64);
            }
        },
        None => {},
    }
    s.append(" ");
    s
}

/// The style of a panel's border.
pub fn border_style(focused: bool) -> (r: Style)
    ensures
        r == (if focused {
            spec_fg(Color::Teal)
        } else {
            spec_fg(Color::Muted)
        }),
{
    if focused {
        fg(Color::Teal)
    } else {
        fg(Color::Muted)
    }
}

/// The style of a panel's title.
pub fn title_style(focused: bool) -> (r: Style)
    ensures
        r == (if focused {
            spec_bold(Color::Teal)
        } else {
            spec_bold(Color::Fg)
        }),
{
    if focused {
        bold(Color::Teal)
    } else {
        bold(Color::Fg)
    }
}

// ---------------------------------------------------------------- too small

/// What a terminal that is too small shows.
pub open spec fn small_lines(width: u16, height: u16, s: AppView) -> Seq<Seq<SpanView>> {
    let head = seq![
        Seq::empty(),
        seq![
            run(
                "terminal too small: "@ + decimal(width as nat) + "×"@ + decimal(height as nat)
                    + " (need 60×20)"@,
                spec_fg(Color::Warning),
            ),
        ],
        Seq::empty(),
        seq![run("resize the window and the UI will recover."@, spec_italic(Color::Muted))],
        Seq::empty(),
    ];
    if s.model.len() > 0 {
        head.push(seq![run("model · "@ + s.model, spec_italic(Color::Muted))])
    } else {
        head
    }
}

/// What a terminal that is too small shows.
pub fn too_small_lines(width: u16, height: u16, state: &AppState) -> (r: Vec<Vec<Span>>)
    ensures
        lines_view(r@) == small_lines(width, height, state@),
{
    let mut lines: Vec<Vec<Span>> = Vec::new();
    push_blank(&mut lines);
    let mut s = "terminal too small: ".to_owned();
    push_decimal(&mut s, width as u64);
    s.append("×");
    push_decimal(&mut s, height as u64);
    s.append(" (need 60×20)");
    push_line(&mut lines, line_of(s.as_str(), fg(Color::Warning)));
    push_blank(&mut lines);
    push_line(
        &mut lines,
        line_of("resize the window and the UI will recover.", italic(Color::Muted)),
    );
    push_blank(&mut lines);
    if !state.model.as_str().is_empty() {
        let mut m = "model · ".to_owned();
        m.append(state.model.as_str());
        push_line(&mut lines, line_of(m.as_str(), italic(Color::Muted)));
    }
    proof {
        assert(lines_view(lines@) =~= small_lines(width, height, state@));
    }
    lines
}

/// Appends a blank line.
fn push_blank(lines: &mut Vec<Vec<Span>>)
    ensures
        lines_view(final(lines)@) == lines_view(old(lines)@).push(Seq::empty()),
{
    let line: Vec<Span> = Vec::new();
    proof {
        assert(line_view(line@) =~= Seq::empty());
    }
    push_line(lines, line);
}

// --------------------------------------------------------------- status bar

/// The brand: its underscore in the accent.
pub open spec fn brand() -> Seq<SpanView> {
    seq![
        run("co"@, spec_bold(Color::Fg)),
        run("_"@, spec_fg(Color::Teal)),
        run("scientist"@, spec_bold(Color::Fg)),
    ]
}

/// A dot between two parts of the status bar.
pub open spec fn separator() -> SpanView {
    run("  ·  "@, spec_fg(Color::Muted))
}

/// The status bar.
pub open spec fn status_spans(s: AppView) -> Seq<SpanView> {
    let model = if s.model.len() > 0 {
        seq![run(s.model, spec_italic(Color::Muted)), separator()]
    } else {
        Seq::empty()
    };
    brand() + seq![separator()] + model + seq![
        run(byte_prefix(s.run_id, 8), spec_italic(Color::Muted)),
        separator(),
        run(agent_name(s), spec_fg(Color::Fg)),
        separator(),
        match s.busy {
            Busy::Idle => run("idle"@, spec_fg(Color::Teal)),
            Busy::Running => run(
                quiet_glyph(s.tick as usize) + " running"@,
                spec_fg(Color::Warning),
            ),
        },
    ]
}

/// The status bar.
pub fn status_line(state: &AppState) -> (r: Vec<Span>)
    ensures
        line_view(r@) == status_spans(state@),
{
    let mut line: Vec<Span> = Vec::new();
    push_brand(&mut line);
    push_run(&mut line, "  ·  ", dim());
    if !state.model.as_str().is_empty() {
        push_run(&mut line, state.model.as_str(), italic(Color::Muted));
        push_run(&mut line, "  ·  ", dim());
    }
    push_run(&mut line, short_id(state.run_id.as_str()).as_str(), italic(Color::Muted));
    push_run(&mut line, "  ·  ", dim());
    push_run(&mut line, state.current_agent_name(), fg(Color::Fg));
    push_run(&mut line, "  ·  ", dim());
    match state.busy {
        Busy::Idle => {
            push_run(&mut line, "idle", fg(Color::Teal));
        },
        Busy::Running => {
            let mut s = quiet_frame(state.tick as usize).to_owned();
            s.append(" running");
            push_run(&mut line, s.as_str(), fg(Color::Warning));
        },
    }
    proof {
        assert(line_view(line@) =~= status_spans(state@));
    }
    line
}

/// Appends the brand.
fn push_brand(line: &mut Vec<Span>)
    ensures
        line_view(final(line)@) == line_view(old(line)@) + brand(),
{
    let ghost start = line_view(line@);
    push_run(line, "co", bold(Color::Fg));
    push_run(line, "_", accent());
    push_run(line, "scientist", bold(Color::Fg));
    proof {
        assert(line_view(line@) =~= start + brand());
    }
}

// ------------------------------------------------------------------- agents

/// The lines of one agent.
pub open spec fn agent_lines(s: AppView, i: int, height: u16) -> Seq<Seq<SpanView>> {
    let name = all_agents()[i].name;
    let current = i == s.agent_idx;
    let marker = if current {
        " › "@
    } else {
        "   "@
    };
    let marker_style = if current && s.focus == Focus::Agents {
        spec_fg(Color::Teal)
    } else if current {
        spec_bold(Color::Fg)
    } else {
        spec_fg(Color::Muted)
    };
    let name_style = if current {
        spec_bold(Color::Emphasis)
    } else {
        spec_fg(Color::Fg)
    };
    let head = seq![run(marker, marker_style), run(name, name_style)];
    if height > 8 {
        seq![
            head,
            seq![run("   "@ + role_hint(name), spec_italic(Color::Muted))],
            Seq::empty(),
        ]
    } else {
        seq![head, Seq::empty()]
    }
}

/// The lines of the first `n` agents.
pub open spec fn agents_upto(s: AppView, n: nat, height: u16) -> Seq<Seq<SpanView>>
    decreases n,
{
    if n == 0 {
        Seq::empty()
    } else {
        agents_upto(s, (n - 1) as nat, height) + agent_lines(s, n - 1, height)
    }
}

/// The list of agents in a panel with `height` rows. What an agent does is only
/// shown where there is room for it.
pub fn agents_lines(state: &AppState, height: u16) -> (r: Vec<Vec<Span>>)
    ensures
        lines_view(r@) == agents_upto(state@, AGENT_COUNT as nat, height),
{
    let focused = state.focus == Focus::Agents;
    let mut lines: Vec<Vec<Span>> = Vec::new();
    let mut i: usize = 0;
    proof {
        assert(lines_view(lines@) =~= agents_upto(state@, 0, height));
    }
    while i < AGENT_COUNT
        invariant
            i <= AGENT_COUNT,
            focused == (state.focus == Focus::Agents),
            lines_view(lines@) == agents_upto(state@, i as nat, height),
        decreases AGENT_COUNT - i,
    {
        let ghost had = lines_view(lines@);
        let agent = agent_at(i);
        let current = i == state.agent_idx;
        let marker = if current {
            " › "
        } else {
            "   "
        };
        let marker_style = if current && focused {
            accent()
        } else if current {
            bold(Color::Fg)
        } else {
            dim()
        };
        let name_style = if current {
            bold(Color::Emphasis)
        } else {
            fg(Color::Fg)
        };
        let mut line: Vec<Span> = Vec::new();
        push_run(&mut line, marker, marker_style);
        push_run(&mut line, agent.name, name_style);
        proof {
            assert(line_view(line@) =~= seq![
                run(marker@, marker_style),
                run(agent.name@, name_style),
            ]);
        }
        push_line(&mut lines, line);
        if height > 8 {
            let mut s = "   ".to_owned();
            s.append(role_one_liner(agent.name));
            push_line(&mut lines, line_of(s.as_str(), italic(Color::Muted)));
        }
        push_blank(&mut lines);
        proof {
            assert(lines_view(lines@) =~= had + agent_lines(state@, i as int, height));
            assert(agents_upto(state@, (i + 1) as nat, height) == agents_upto(
                state@,
                i as nat,
                height,
            ) + agent_lines(state@, i as int, height));
        }
        i += 1;
    }
    lines
}

// --------------------------------------------------------------------- chat

/// How many columns a text takes: what ratatui's `Span::width` gives, which is
/// the Unicode width of its content.
pub uninterp spec fn text_width(s: Seq<char>) -> nat;

/// Calls `ratatui::text::Span::width` on a span that holds the text, and claims
/// that the result depends on the text alone.
#[verifier::external_body]
fn width_of(s: &str) -> (r: usize)
    ensures
        r == text_width(s@),
{
    ratatui::text::Span::raw(s).width()
}

/// The number, or the largest `usize` where it is larger.
pub open spec fn bounded(n: nat) -> nat {
    if n <= usize::MAX {
        n
    } else {
        usize::MAX as nat
    }
}

/// The sum of two numbers, bounded.
fn add_bounded(a: usize, b: usize) -> (r: usize)
    ensures
        r == bounded((a + b) as nat),
{
    if a <= usize::MAX - b {
        a + b
    } else {
        usize::MAX
    }
}

/// How many columns a line takes.
pub open spec fn line_width(line: Seq<SpanView>) -> nat
    decreases line.len(),
{
    if line.len() == 0 {
        0
    } else {
        bounded(line_width(line.drop_last()) + text_width(line.last().text))
    }
}

/// How many rows a line with that many columns takes in a panel `visible_w` wide.
pub open spec fn wrapped_rows(width: nat, visible_w: nat) -> nat {
    if width == 0 {
        1
    } else if width % visible_w == 0 {
        width / visible_w
    } else {
        width / visible_w + 1
    }
}

/// How many rows lines with these widths take together.
pub open spec fn total_rows(widths: Seq<nat>, visible_w: nat) -> nat
    decreases widths.len(),
{
    if widths.len() == 0 {
        0
    } else {
        bounded(total_rows(widths.drop_last(), visible_w) + wrapped_rows(widths.last(), visible_w))
    }
}

/// The widths of the lines.
pub open spec fn line_widths(lines: Seq<Seq<SpanView>>) -> Seq<nat> {
    lines.map_values(|l: Seq<SpanView>| line_width(l))
}

/// The metrics of a chat whose lines have these widths, in a panel of this size.
pub open spec fn metrics_of(widths: Seq<nat>, width: u16, height: u16) -> ChatMetrics {
    let total = total_rows(
        widths,
        if width == 0 {
            1
        } else {
            width as nat
        },
    );
    ChatMetrics {
        total: total as usize,
        visible_h: height as usize,
        max_scroll: if total <= height {
            0
        } else {
            (total - height) as usize
        },
    }
}

/// Machine numbers as numbers.
pub open spec fn as_nats(v: Seq<usize>) -> Seq<nat> {
    v.map_values(|n: usize| n as nat)
}

/// The metrics of a chat whose lines have these widths, in a panel of this size.
pub fn metrics_from(widths: &Vec<usize>, width: u16, height: u16) -> (r: ChatMetrics)
    ensures
        r == metrics_of(as_nats(widths@), width, height),
{
    let visible_w: usize = if width == 0 {
        1
    } else {
        width as usize
    };
    let ghost all = as_nats(widths@);
    let mut total: usize = 0;
    let mut i: usize = 0;
    proof {
        assert(all.take(0) =~= Seq::<nat>::empty());
    }
    while i < widths.len()
        invariant
            i <= widths@.len(),
            all == as_nats(widths@),
            visible_w > 0,
            total == total_rows(all.take(i as int), visible_w as nat),
        decreases widths.len() - i,
    {
        let w: usize = widths[i];
        let rows: usize = if w == 0 {
            1
        } else if w % visible_w == 0 {
            w / visible_w
        } else {
            proof {
                lemma_rows_fit(w, visible_w);
            }
            w / visible_w + 1
        };
        proof {
            assert(all.take(i + 1).drop_last() =~= all.take(i as int));
            assert(all.take(i + 1).last() == w);
        }
        total = add_bounded(total, rows);
        i += 1;
    }
    proof {
        assert(all.take(all.len() as int) =~= all);
    }
    let visible_h: usize = height as usize;
    ChatMetrics {
        total,
        visible_h,
        max_scroll: if total <= visible_h {
            0
        } else {
            total - visible_h
        },
    }
}

proof fn lemma_rows_fit(w: usize, d: usize)
    requires
        d > 0,
        w % d != 0,
    ensures
        w / d < usize::MAX,
{
    assert(w / d <= w) by (nonlinear_arith)
        requires
            d > 0,
    ;
    if d == 1 {
        assert(w % 1 == 0);
    } else {
        assert(w / d <= w / 2) by (nonlinear_arith)
            requires
                d >= 2,
        ;
    }
}

/// The width of a line.
fn width_of_line(line: &Vec<Span>) -> (r: usize)
    ensures
        r == line_width(line_view(line@)),
{
    let ghost all = line_view(line@);
    let mut total: usize = 0;
    let mut i: usize = 0;
    proof {
        assert(all.take(0) =~= Seq::<SpanView>::empty());
    }
    while i < line.len()
        invariant
            i <= line@.len(),
            all == line_view(line@),
            total == line_width(all.take(i as int)),
        decreases line.len() - i,
    {
        proof {
            assert(all.take(i + 1).drop_last() =~= all.take(i as int));
            assert(all.take(i + 1).last() == line@[i as int]@);
        }
        total = add_bounded(total, width_of(line[i].text.as_str()));
        i += 1;
    }
    proof {
        assert(all.take(all.len() as int) =~= all);
    }
    total
}

/// How much of the chat there is and how much of it a panel of this size shows.
pub fn compute_chat_metrics(lines: &Vec<Vec<Span>>, width: u16, height: u16) -> (r: ChatMetrics)
    ensures
        r == metrics_of(line_widths(lines_view(lines@)), width, height),
{
    let ghost all = line_widths(lines_view(lines@));
    let mut widths: Vec<usize> = Vec::new();
    let mut i: usize = 0;
    proof {
        assert(as_nats(widths@) =~= all.take(0));
    }
    while i < lines.len()
        invariant
            i <= lines@.len(),
            all == line_widths(lines_view(lines@)),
            as_nats(widths@) == all.take(i as int),
        decreases lines.len() - i,
    {
        let ghost had = widths@;
        widths.push(width_of_line(&lines[i]));
        proof {
            assert(all.take(i + 1) =~= all.take(i as int).push(all[i as int]));
            assert(as_nats(widths@) =~= as_nats(had).push(all[i as int]));
        }
        i += 1;
    }
    proof {
        assert(all.take(all.len() as int) =~= all);
    }
    metrics_from(&widths, width, height)
}

/// A chat that fits its panel cannot be scrolled, and one that does not can be
/// scrolled until its last row is the last one seen.
pub proof fn law_last_row_can_be_reached(widths: Seq<nat>, width: u16, height: u16)
    ensures
        ({
            let m = metrics_of(widths, width, height);
            &&& m.total <= m.visible_h ==> m.max_scroll == 0
            &&& m.total > m.visible_h ==> m.max_scroll + m.visible_h == m.total
        }),
{
}

/// The scroll position of a frame.
pub open spec fn scroll_of(s: AppView, m: ChatMetrics) -> u16 {
    let max = m.max_scroll as u16;
    if s.follow_tail || s.chat_scroll > max {
        max
    } else {
        s.chat_scroll
    }
}

/// The scroll position of a frame: the end where the chat follows it, or else
/// the position of the state, brought back into the chat.
pub fn pick_chat_scroll(state: &AppState, metrics: ChatMetrics) -> (r: u16)
    ensures
        r == scroll_of(state@, metrics),
{
    let max: u16 = metrics.max_scroll as u16;
    if state.follow_tail {
        max
    } else if state.chat_scroll > max {
        max
    } else {
        state.chat_scroll
    }
}

/// Keeps the metrics of a frame for the keys that come before the next one.
pub fn publish_metrics(state: &mut AppState, metrics: ChatMetrics)
    ensures
        final(state)@ == (AppView {
            chat_max_scroll: metrics.max_scroll as u16,
            chat_visible_h: metrics.visible_h as u16,
            ..old(state)@
        }),
{
    state.chat_max_scroll = metrics.max_scroll as u16;
    state.chat_visible_h = metrics.visible_h as u16;
}

/// The title of the chat at the time `now`.
pub open spec fn chat_heading(s: AppView, now: u64) -> Seq<char> {
    if s.supervisor_running {
        let seconds = match s.supervisor_started_at {
            Some(t) => if now >= t {
                ((now - t) / 1000) as nat
            } else {
                0
            },
            None => 0,
        };
        " chat · sup "@ + bar(bounded((s.tasks_done + s.tasks_failed) as nat) as usize, 20) + " "@
            + decimal(s.tasks_done as nat) + "✓ "@ + decimal(s.tasks_failed as nat) + "✗ "@
            + decimal(seconds) + "s "@
    } else {
        " chat "@
    }
}

/// The title of the chat at the time `now`.
pub fn chat_title(state: &AppState, now: u64) -> (r: String)
    ensures
        r@ == chat_heading(state@, now),
{
    if !state.supervisor_running {
        return " chat ".to_owned();
    }
    let seconds: u64 = match state.supervisor_started_at {
        Some(t) => if now >= t {
            (now - t) / 1000
        } else {
            0
        },
        None => 0,
    };
    let mut s = " chat · sup ".to_owned();
    s.append(mini_bar(add_bounded(state.tasks_done, state.tasks_failed), 20).as_str());
    s.append(" ");
    push_decimal(&mut s, state.tasks_done as u64);
    s.append("✓ ");
    push_decimal(&mut s, state.tasks_failed as u64);
    s.append("✗ ");
    push_decimal(&mut s, seconds);
    s.append("s ");
    s
}

/// Whether a span holds nothing but spaces.
pub open spec fn is_indent(s: SpanView) -> bool {
    forall|i: int| 0 <= i < s.text.len() ==> s.text[i] == ' '
}

/// A line without the spans of spaces that it begins with.
pub open spec fn without_indent(line: Seq<SpanView>) -> Seq<SpanView>
    decreases line.len(),
{
    if line.len() > 0 && is_indent(line[0]) {
        without_indent(line.skip(1))
    } else {
        line
    }
}

/// The knob, the agent's name: what an answer begins with.
pub open spec fn answer_prefix(s: AppView, i: int, agent: Seq<char>) -> Seq<SpanView> {
    let knob = if s.streaming_assistant == Some(i as usize) {
        run(busy_glyph(s.tick as usize), spec_fg(Color::Teal))
    } else {
        run("✓"@, spec_fg(Color::Success))
    };
    seq![knob, run(" "@, spec_plain()), run(agent, spec_bold(Color::Emphasis))]
}

/// The lines of an answer whose text is shown as `body`.
pub open spec fn answer_lines(prefix: Seq<SpanView>, body: Seq<Seq<SpanView>>) -> Seq<
    Seq<SpanView>,
> {
    if body.len() == 0 {
        seq![Seq::empty(), prefix, seq![run(" …"@, spec_fg(Color::Muted))]]
    } else {
        seq![Seq::empty(), prefix + without_indent(body[0])] + body.skip(1)
    }
}

/// The arguments of a tool call as they are shown: in the compact form of their
/// value, or as they stand where they are no JSON.
pub open spec fn args_shown(args: Seq<char>, compact: Option<Seq<char>>) -> Seq<char> {
    match compact {
        Some(s) => s,
        None => args,
    }
}

/// The arguments of a tool call as they are shown, given the compact form of their
/// value.
pub fn show_args(args: &str, compact: Option<String>) -> (r: String)
    ensures
        r@ == args_shown(args@, opt_view(compact)),
{
    match compact {
        Some(s) => s,
        None => args.to_owned(),
    }
}

/// The lines of one entry of the log.
pub open spec fn entry_lines(s: AppView, i: int) -> Seq<Seq<SpanView>> {
    match s.log[i] {
        ChatView::User(t) => seq![
            Seq::empty(),
            seq![
                run("›"@, spec_fg(Color::Teal)),
                run(" "@, spec_plain()),
                run("you"@, spec_bold(Color::Emphasis)),
            ],
            seq![run("   "@, spec_plain()), run(t, spec_fg(Color::Emphasis))],
        ],
        ChatView::ToolCall { agent, tool, args } => seq![
            Seq::empty(),
            seq![
                run("╴"@, spec_fg(Color::Accent2)),
                run(" "@, spec_plain()),
                run(tool, spec_bold(Color::Accent2)),
                run(" · "@ + agent, spec_fg(Color::Muted)),
            ],
            seq![
                run("   "@, spec_plain()),
                run(args_shown(args, json_compact(args)), spec_fg(Color::Accent2)),
            ],
        ],
        ChatView::Assistant { agent, text } => answer_lines(
            answer_prefix(s, i, agent),
            rendered(
                md_events(
                    if text.len() == 0 {
                        "…"@
                    } else {
                        text
                    },
                ),
                spec_graded_palette(),
            ),
        ),
        ChatView::System(t) => seq![
            Seq::empty(),
            seq![run(" · "@, spec_fg(Color::Muted)), run(t, spec_italic(Color::Muted))],
        ],
    }
}

/// The lines of the first `n` entries of the log.
pub open spec fn chat_upto(s: AppView, n: nat) -> Seq<Seq<SpanView>>
    decreases n,
{
    if n == 0 {
        Seq::empty()
    } else {
        chat_upto(s, (n - 1) as nat) + entry_lines(s, n - 1)
    }
}

/// Whether a text holds nothing but spaces.
fn all_spaces(s: &str) -> (r: bool)
    ensures
        r == (forall|i: int| 0 <= i < s@.len() ==> s@[i] == ' '),
{
    let v = chars_of(s);
    let mut i: usize = 0;
    while i < v.len()
        invariant
            i <= v@.len(),
            v@ == s@,
            forall|j: int| 0 <= j < i ==> s@[j] == ' ',
        decreases v.len() - i,
    {
        if v[i] != ' ' {
            return false;
        }
        i += 1;
    }
    true
}

/// The lines of an answer whose text is shown as `body`.
pub fn compose_answer(prefix: Vec<Span>, body: Vec<Vec<Span>>) -> (r: Vec<Vec<Span>>)
    ensures
        lines_view(r@) == answer_lines(line_view(prefix@), lines_view(body@)),
{
    let ghost want_prefix = line_view(prefix@);
    let ghost want_body = lines_view(body@);
    let mut out: Vec<Vec<Span>> = Vec::new();
    push_blank(&mut out);
    if body.len() == 0 {
        push_line(&mut out, prefix);
        push_line(&mut out, line_of(" …", fg(Color::Muted)));
        proof {
            assert(lines_view(out@) =~= answer_lines(want_prefix, want_body));
        }
        return out;
    }
    let mut body = body;
    let mut rest = body.split_off(1);
    let mut first = body.remove(0);
    proof {
        assert(line_view(first@) == want_body[0]);
        assert(lines_view(rest@) =~= want_body.skip(1));
    }
    let ghost whole = line_view(first@);
    while first.len() > 0 && all_spaces(first[0].text.as_str())
        invariant
            without_indent(line_view(first@)) == without_indent(whole),
        decreases first.len(),
    {
        let ghost had = line_view(first@);
        first.remove(0);
        proof {
            assert(line_view(first@) =~= had.skip(1));
            assert(is_indent(had[0]));
        }
    }
    let mut line = prefix;
    let ghost head = line@;
    let ghost tail = first@;
    line.append(&mut first);
    proof {
        if tail.len() > 0 {
            assert(line_view(tail)[0].text == tail[0].text@);
            assert(!(forall|i: int| 0 <= i < tail[0].text@.len() ==> tail[0].text@[i] == ' '));
            assert(!is_indent(line_view(tail)[0]));
        }
        assert(line_view(tail) == without_indent(whole));
        assert(line_view(line@) =~= line_view(head) + line_view(tail));
    }
    push_line(&mut out, line);
    let ghost before = out@;
    let ghost after = rest@;
    out.append(&mut rest);
    proof {
        assert(lines_view(out@) =~= lines_view(before) + lines_view(after));
        assert(lines_view(out@) =~= answer_lines(want_prefix, want_body));
    }
    out
}

/// The lines of one entry of the log.
fn render_entry(state: &AppState, i: usize) -> (r: Vec<Vec<Span>>)
    requires
        i < state.log@.len(),
    ensures
        lines_view(r@) == entry_lines(state@, i as int),
{
    let mut out: Vec<Vec<Span>> = Vec::new();
    let ghost want = entry_lines(state@, i as int);
    match &state.log[i] {
        ChatMsg::User(t) => {
            push_blank(&mut out);
            let mut label: Vec<Span> = Vec::new();
            push_run(&mut label, "›", accent());
            push_run(&mut label, " ", plain());
            push_run(&mut label, "you", bold(Color::Emphasis));
            let mut body: Vec<Span> = Vec::new();
            push_run(&mut body, "   ", plain());
            push_run(&mut body, t.as_str(), fg(Color::Emphasis));
            proof {
                assert(line_view(label@) =~= want[1]);
                assert(line_view(body@) =~= want[2]);
            }
            push_line(&mut out, label);
            push_line(&mut out, body);
            proof {
                assert(lines_view(out@) =~= want);
            }
            out
        },
        ChatMsg::ToolCall { agent, tool, args } => {
            push_blank(&mut out);
            let mut label: Vec<Span> = Vec::new();
            push_run(&mut label, "╴", fg(Color::Accent2));
            push_run(&mut label, " ", plain());
            push_run(&mut label, tool.as_str(), bold(Color::Accent2));
            let mut by = " · ".to_owned();
            by.append(agent.as_str());
            push_run(&mut label, by.as_str(), fg(Color::Muted));
            let mut body: Vec<Span> = Vec::new();
            push_run(&mut body, "   ", plain());
            let shown = show_args(args.as_str(), compact_json(args.as_str()));
            push_run(&mut body, shown.as_str(), fg(Color::Accent2));
            proof {
                assert(line_view(label@) =~= want[1]);
                assert(line_view(body@) =~= want[2]);
            }
            push_line(&mut out, label);
            push_line(&mut out, body);
            proof {
                assert(lines_view(out@) =~= want);
            }
            out
        },
        ChatMsg::Assistant { agent, text } => {
            let mut prefix: Vec<Span> = Vec::new();
            let streaming = match state.streaming_assistant {
                Some(at) => at == i,
                None => false,
            };
            if streaming {
                push_run(&mut prefix, busy_frame(state.tick as usize), fg(Color::Teal));
            } else {
                push_run(&mut prefix, "✓", fg(Color::Success));
            }
            push_run(&mut prefix, " ", plain());
            push_run(&mut prefix, agent.as_str(), bold(Color::Emphasis));
            proof {
                assert(line_view(prefix@) =~= answer_prefix(state@, i as int, agent@));
            }
            let body = if text.as_str().is_empty() {
                render_markdown("…")
            } else {
                render_markdown(text.as_str())
            };
            compose_answer(prefix, body)
        },
        ChatMsg::System(t) => {
            push_blank(&mut out);
            let mut line: Vec<Span> = Vec::new();
            push_run(&mut line, " · ", dim());
            push_run(&mut line, t.as_str(), italic(Color::Muted));
            proof {
                assert(line_view(line@) =~= want[1]);
            }
            push_line(&mut out, line);
            proof {
                assert(lines_view(out@) =~= want);
            }
            out
        },
    }
}

/// The lines of the whole chat.
pub fn render_chat_lines(state: &AppState) -> (r: Vec<Vec<Span>>)
    ensures
        lines_view(r@) == chat_upto(state@, state@.log.len()),
{
    let mut out: Vec<Vec<Span>> = Vec::new();
    let mut i: usize = 0;
    proof {
        assert(lines_view(out@) =~= chat_upto(state@, 0));
    }
    while i < state.log.len()
        invariant
            i <= state.log@.len(),
            lines_view(out@) == chat_upto(state@, i as nat),
        decreases state.log.len() - i,
    {
        let ghost had = out@;
        let mut more = render_entry(state, i);
        let ghost added = more@;
        out.append(&mut more);
        proof {
            assert(lines_view(out@) =~= lines_view(had) + lines_view(added));
        }
        i += 1;
    }
    out
}

// -------------------------------------------------------------------- input

/// The input row.
pub open spec fn input_spans(s: AppView) -> Seq<SpanView> {
    if s.supervisor_running {
        seq![
            run("   "@, spec_fg(Color::Muted)),
            run(
                "supervisor running · "@ + decimal(s.tasks_done as nat) + " done / "@ + decimal(
                    s.tasks_failed as nat,
                ) + " failed — /stop to end"@,
                spec_italic(Color::Muted),
            ),
        ]
    } else if s.busy == Busy::Running {
        seq![
            run(" › "@, spec_fg(Color::Teal)),
            run("agent thinking…"@, spec_italic(Color::Muted)),
        ]
    } else {
        seq![run(" › "@, spec_fg(Color::Teal)), run(s.input, spec_fg(Color::Fg))]
    }
}

/// The input row.
pub fn input_line(state: &AppState) -> (r: Vec<Span>)
    ensures
        line_view(r@) == input_spans(state@),
{
    let mut line: Vec<Span> = Vec::new();
    if state.supervisor_running {
        let mut s = "supervisor running · ".to_owned();
        push_decimal(&mut s, state.tasks_done as u64);
        s.append(" done / ");
        push_decimal(&mut s, state.tasks_failed as u64);
        s.append(" failed — /stop to end");
        push_run(&mut line, "   ", dim());
        push_run(&mut line, s.as_str(), italic(Color::Muted));
    } else if state.busy == Busy::Running {
        push_run(&mut line, " › ", accent());
        push_run(&mut line, "agent thinking…", italic(Color::Muted));
    } else {
        push_run(&mut line, " › ", accent());
        push_run(&mut line, state.input.as_str(), fg(Color::Fg));
    }
    proof {
        assert(line_view(line@) =~= input_spans(state@));
    }
    line
}

/// How many columns the cursor stands behind the start of the input row; `None`
/// where nothing can be typed.
pub fn input_cursor(state: &AppState) -> (r: Option<usize>)
    ensures
        r == (if state.focus == Focus::Input && !state.supervisor_running && state.busy
            == Busy::Idle {
            Some(bounded(state@.input.len() + 3) as usize)
        } else {
            None
        }),
{
    if state.focus == Focus::Input && !state.supervisor_running && state.busy == Busy::Idle {
        Some(add_bounded(chars_of(state.input.as_str()).len(), 3))
    } else {
        None
    }
}

// ------------------------------------------------------------------- footer

/// A hint of the footer: the key in the accent.
pub open spec fn key_hint(text: Seq<char>) -> SpanView {
    run(text, spec_fg(Color::Teal))
}

/// A hint of the footer: what the key does.
pub open spec fn word_hint(text: Seq<char>) -> SpanView {
    run(text, spec_italic(Color::Muted))
}

/// The hints of the focused panel.
pub open spec fn panel_hints(f: Focus) -> Seq<SpanView> {
    match f {
        Focus::Input => seq![
            word_hint("  ·  "@),
            key_hint("Enter"@),
            word_hint(" send  "@),
            key_hint("/"@),
            word_hint(" command  "@),
            key_hint("Tab"@),
            word_hint(" focus"@),
        ],
        Focus::Chat => seq![
            word_hint("  ·  "@),
            key_hint("j/k"@),
            word_hint(" scroll  "@),
            key_hint("G/g"@),
            word_hint(" end/beg  "@),
            key_hint("f"@),
            word_hint(" follow"@),
        ],
        Focus::Agents => seq![
            word_hint("  ·  "@),
            key_hint("Tab"@),
            word_hint(" cycle agent  "@),
            key_hint("Enter"@),
            word_hint(" chat"@),
        ],
        Focus::SidebarTasks | Focus::SidebarMemory => seq![
            word_hint("  ·  "@),
            key_hint("Tab"@),
            word_hint(" other sidebar  "@),
            key_hint("↑↓"@),
            word_hint(" select"@),
        ],
    }
}

/// The left side of the footer: the focus and the keys that work there.
pub open spec fn footer_left(s: AppView) -> Seq<SpanView> {
    seq![word_hint("focus "@), key_hint(focus_name(s.focus))] + panel_hints(s.focus) + seq![
        word_hint("    "@),
        key_hint("?"@),
        word_hint(" help  "@),
        key_hint("Ctrl-N"@),
        word_hint(" new  "@),
        key_hint("Ctrl-L"@),
        word_hint(" clear  "@),
        key_hint("Ctrl-C"@),
        word_hint(" quit"@),
    ]
}

/// Appends a key of the footer.
fn push_key(line: &mut Vec<Span>, text: &str)
    ensures
        line_view(final(line)@) == line_view(old(line)@).push(key_hint(text@)),
{
    push_run(line, text, accent());
}

/// Appends what a key of the footer does.
fn push_word(line: &mut Vec<Span>, text: &str)
    ensures
        line_view(final(line)@) == line_view(old(line)@).push(word_hint(text@)),
{
    push_run(line, text, italic(Color::Muted));
}

/// The left side of the footer.
pub fn build_footer_left(state: &AppState) -> (r: Vec<Span>)
    ensures
        line_view(r@) == footer_left(state@),
{
    let mut spans: Vec<Span> = Vec::new();
    push_word(&mut spans, "focus ");
    push_key(&mut spans, focus_label(state.focus));
    push_word(&mut spans, "  ·  ");
    match state.focus {
        Focus::Input => {
            push_key(&mut spans, "Enter");
            push_word(&mut spans, " send  ");
            push_key(&mut spans, "/");
            push_word(&mut spans, " command  ");
            push_key(&mut spans, "Tab");
            push_word(&mut spans, " focus");
        },
        Focus::Chat => {
            push_key(&mut spans, "j/k");
            push_word(&mut spans, " scroll  ");
            push_key(&mut spans, "G/g");
            push_word(&mut spans, " end/beg  ");
            push_key(&mut spans, "f");
            push_word(&mut spans, " follow");
        },
        Focus::Agents => {
            push_key(&mut spans, "Tab");
            push_word(&mut spans, " cycle agent  ");
            push_key(&mut spans, "Enter");
            push_word(&mut spans, " chat");
        },
        Focus::SidebarTasks | Focus::SidebarMemory => {
            push_key(&mut spans, "Tab");
            push_word(&mut spans, " other sidebar  ");
            push_key(&mut spans, "↑↓");
            push_word(&mut spans, " select");
        },
    }
    proof {
        assert(line_view(spans@) =~= seq![word_hint("focus "@), key_hint(focus_name(state.focus))]
            + panel_hints(state.focus));
    }
    push_word(&mut spans, "    ");
    push_key(&mut spans, "?");
    push_word(&mut spans, " help  ");
    push_key(&mut spans, "Ctrl-N");
    push_word(&mut spans, " new  ");
    push_key(&mut spans, "Ctrl-L");
    push_word(&mut spans, " clear  ");
    push_key(&mut spans, "Ctrl-C");
    push_word(&mut spans, " quit");
    proof {
        assert(line_view(spans@) =~= footer_left(state@));
    }
    spans
}

/// The right side of the footer: what is under way, and the brand.
pub open spec fn footer_right(s: AppView) -> Seq<SpanView> {
    let glyph = if s.supervisor_running {
        run(busy_glyph(s.tick as usize), spec_fg(Color::Success))
    } else if s.busy == Busy::Running {
        run(busy_glyph(s.tick as usize), spec_fg(Color::Teal))
    } else {
        run("·"@, spec_fg(Color::Muted))
    };
    seq![glyph, run("  "@, spec_plain())] + brand()
}

/// The right side of the footer.
pub fn build_footer_right(state: &AppState) -> (r: Vec<Span>)
    ensures
        line_view(r@) == footer_right(state@),
{
    let mut spans: Vec<Span> = Vec::new();
    if state.supervisor_running {
        push_run(&mut spans, busy_frame(state.tick as usize), fg(Color::Success));
    } else if state.busy == Busy::Running {
        push_run(&mut spans, busy_frame(state.tick as usize), accent());
    } else {
        push_run(&mut spans, "·", fg(Color::Muted));
    }
    push_run(&mut spans, "  ", plain());
    proof {
        assert(line_view(spans@) =~= seq![footer_right(state@)[0], run("  "@, spec_plain())]);
    }
    push_brand(&mut spans);
    spans
}

/// How many characters a line holds.
pub open spec fn line_chars(line: Seq<SpanView>) -> nat
    decreases line.len(),
{
    if line.len() == 0 {
        0
    } else {
        bounded(line_chars(line.drop_last()) + line.last().text.len())
    }
}

/// So many spaces.
pub open spec fn spaces(n: nat) -> Seq<char> {
    Seq::new(n, |i: int| ' ')
}

/// So many spaces.
pub fn blanks(n: usize) -> (r: String)
    ensures
        r@ == spaces(n as nat),
{
    let mut s = String::new();
    let mut i: usize = 0;
    proof {
        assert(s@ =~= spaces(0));
    }
    while i < n
        invariant
            i <= n,
            s@ == spaces(i as nat),
        decreases n - i,
    {
        s.push(' ');
        proof {
            assert(s@ =~= spaces((i + 1) as nat));
        }
        i += 1;
    }
    s
}

/// How many characters a line holds.
fn count_chars(line: &Vec<Span>) -> (r: usize)
    ensures
        r == line_chars(line_view(line@)),
{
    let ghost all = line_view(line@);
    let mut total: usize = 0;
    let mut i: usize = 0;
    proof {
        assert(all.take(0) =~= Seq::<SpanView>::empty());
    }
    while i < line.len()
        invariant
            i <= line@.len(),
            all == line_view(line@),
            total == line_chars(all.take(i as int)),
        decreases line.len() - i,
    {
        proof {
            assert(all.take(i + 1).drop_last() =~= all.take(i as int));
            assert(all.take(i + 1).last() == line@[i as int]@);
        }
        total = add_bounded(total, chars_of(line[i].text.as_str()).len());
        i += 1;
    }
    proof {
        assert(all.take(all.len() as int) =~= all);
    }
    total
}

/// Two groups with so many spaces between them that the second ends at the
/// right edge of a row `width` wide, where there is room for both.
pub open spec fn justified(left: Seq<SpanView>, right: Seq<SpanView>, width: u16) -> Seq<SpanView> {
    let used = bounded(line_chars(left) + line_chars(right));
    if used < width {
        left + seq![run(spaces((width - used) as nat), spec_plain())] + right
    } else {
        left + right
    }
}

/// The footer of a screen `width` wide.
pub fn footer_line(state: &AppState, width: u16) -> (r: Vec<Span>)
    ensures
        line_view(r@) == justified(footer_left(state@), footer_right(state@), width),
{
    let mut spans = build_footer_left(state);
    let mut right = build_footer_right(state);
    let used = add_bounded(count_chars(&spans), count_chars(&right));
    if used < width as usize {
        push_run(&mut spans, blanks(width as usize - used).as_str(), plain());
    }
    let ghost a = spans@;
    let ghost b = right@;
    spans.append(&mut right);
    proof {
        assert(line_view(spans@) =~= line_view(a) + line_view(b));
        assert(line_view(spans@) =~= justified(footer_left(state@), footer_right(state@), width));
    }
    spans
}

proof fn lemma_line_chars_add(a: Seq<SpanView>, b: Seq<SpanView>)
    ensures
        line_chars(a + b) == bounded(line_chars(a) + line_chars(b)),
    decreases b.len(),
{
    lemma_line_chars_bounded(a);
    if b.len() == 0 {
        assert(a + b =~= a);
    } else {
        lemma_line_chars_add(a, b.drop_last());
        assert((a + b).drop_last() =~= a + b.drop_last());
    }
}

proof fn lemma_line_chars_bounded(a: Seq<SpanView>)
    ensures
        line_chars(a) <= usize::MAX,
{
}

/// Where both groups fit, the row is exactly as wide as the screen.
pub proof fn law_footer_fills_row(left: Seq<SpanView>, right: Seq<SpanView>, width: u16)
    requires
        line_chars(left) + line_chars(right) <= width,
    ensures
        line_chars(justified(left, right, width)) == width,
{
    let used = line_chars(left) + line_chars(right);
    lemma_line_chars_add(left, right);
    if used < width {
        let pad = seq![run(spaces((width - used) as nat), spec_plain())];
        assert(pad.drop_last() =~= Seq::<SpanView>::empty());
        assert(line_chars(Seq::<SpanView>::empty()) == 0);
        assert(line_chars(pad) == width - used);
        lemma_line_chars_add(left, pad);
        lemma_line_chars_add(left + pad, right);
    }
}

// ----------------------------------------------------------------- sidebars

/// The line of a task.
pub open spec fn task_spans(t: TaskView) -> Seq<SpanView> {
    let (icon, color) = match t.status {
        TaskStatus::Claimed => ("›"@, Color::Fg),
        TaskStatus::Running => ("›"@, Color::Teal),
        TaskStatus::Done => ("✓"@, Color::Success),
        TaskStatus::Failed => ("✗"@, Color::Error),
    };
    let action = match t.action {
        Some(a) => a,
        None => ""@,
    };
    let worker = match t.worker {
        Some(w) => byte_prefix(w, 8),
        None => "?"@,
    };
    seq![run(icon + " "@ + worker + " "@ + action, spec_fg(color))]
}

/// The line of a task.
pub fn render_task_line(t: &TaskEntry) -> (r: Vec<Span>)
    ensures
        line_view(r@) == task_spans(t@),
{
    let (icon, color) = match t.status {
        TaskStatus::Claimed => ("›", Color::Fg),
        TaskStatus::Running => ("›", Color::Teal),
        TaskStatus::Done => ("✓", Color::Success),
        TaskStatus::Failed => ("✗", Color::Error),
    };
    let mut s = icon.to_owned();
    s.append(" ");
    match &t.worker {
        Some(w) => {
            s.append(short_id(w.as_str()).as_str());
        },
        None => {
            s.append("?");
        },
    }
    s.append(" ");
    match &t.action {
        Some(a) => {
            s.append(a.as_str());
        },
        None => {
            s.append("");
        },
    }
    line_of(s.as_str(), fg(color))
}

/// How many of `n` entries a panel with `height` rows shows.
pub open spec fn shown_count(n: nat, height: u16) -> nat {
    if n < height {
        n
    } else {
        height as nat
    }
}

/// The list of tasks in a panel with `height` rows, the newest first.
pub open spec fn task_list(s: AppView, height: u16) -> Seq<Seq<SpanView>> {
    if s.tasks.len() == 0 {
        seq![
            seq![
                run(
                    if s.supervisor_running {
                        " waiting…"@
                    } else {
                        " (idle)"@
                    },
                    spec_italic(Color::Muted),
                ),
            ],
        ]
    } else {
        Seq::new(
            shown_count(s.tasks.len(), height),
            |i: int| task_spans(s.tasks[s.tasks.len() - 1 - i]),
        )
    }
}

/// The list of tasks in a panel with `height` rows, the newest first.
pub fn tasks_lines(state: &AppState, height: u16) -> (r: Vec<Vec<Span>>)
    ensures
        lines_view(r@) == task_list(state@, height),
{
    let mut lines: Vec<Vec<Span>> = Vec::new();
    let n: usize = state.tasks.len();
    let ghost want = task_list(state@, height);
    if n == 0 {
        let text = if state.supervisor_running {
            " waiting…"
        } else {
            " (idle)"
        };
        push_line(&mut lines, line_of(text, italic(Color::Muted)));
        proof {
            assert(lines_view(lines@) =~= want);
        }
        return lines;
    }
    let mut i: usize = 0;
    proof {
        assert(lines_view(lines@) =~= want.take(0));
    }
    while i < n && i < height as usize
        invariant
            n == state.tasks@.len(),
            n > 0,
            i <= n,
            i <= height,
            want == task_list(state@, height),
            lines_view(lines@) == want.take(i as int),
        decreases n - i,
    {
        let ghost had = lines_view(lines@);
        push_line(&mut lines, render_task_line(&state.tasks[n - 1 - i]));
        proof {
            assert(want.take(i + 1) =~= want.take(i as int).push(want[i as int]));
        }
        i += 1;
    }
    proof {
        assert(want.take(want.len() as int) =~= want);
    }
    lines
}

/// The line of a memory write.
pub open spec fn memory_spans(m: MemoryView) -> Seq<SpanView> {
    match m {
        MemoryView::Semantic { scope, summary } => seq![
            run("+ "@, spec_fg(Color::Success)),
            run("["@ + scope + "] "@, spec_bold(Color::Fg)),
            run(summary, spec_fg(Color::Fg)),
        ],
        MemoryView::Behavior { agent, pattern } => seq![
            run("· "@, spec_fg(Color::Teal)),
            run(agent + ": "@, spec_bold(Color::Fg)),
            run(pattern, spec_italic(Color::Muted)),
        ],
    }
}

/// The line of a memory write.
pub fn render_memory_line(m: &MemoryEntry) -> (r: Vec<Span>)
    ensures
        line_view(r@) == memory_spans(m@),
{
    let mut line: Vec<Span> = Vec::new();
    match m {
        MemoryEntry::Semantic { scope, summary } => {
            let mut s = "[".to_owned();
            s.append(scope.as_str());
            s.append("] ");
            push_run(&mut line, "+ ", fg(Color::Success));
            push_run(&mut line, s.as_str(), bold(Color::Fg));
            push_run(&mut line, summary.as_str(), fg(Color::Fg));
        },
        MemoryEntry::Behavior { agent, pattern } => {
            let mut s = agent.clone();
            s.append(": ");
            push_run(&mut line, "· ", fg(Color::Teal));
            push_run(&mut line, s.as_str(), bold(Color::Fg));
            push_run(&mut line, pattern.as_str(), italic(Color::Muted));
        },
    }
    proof {
        assert(line_view(line@) =~= memory_spans(m@));
    }
    line
}

/// The memory writes in a panel with `height` rows, the newest first.
pub open spec fn memory_list(s: AppView, height: u16) -> Seq<Seq<SpanView>> {
    if s.memory.len() == 0 {
        seq![seq![run(" (none yet)"@, spec_italic(Color::Muted))]]
    } else {
        Seq::new(
            shown_count(s.memory.len(), height),
            |i: int| memory_spans(s.memory[s.memory.len() - 1 - i]),
        )
    }
}

/// The memory writes in a panel with `height` rows, the newest first.
pub fn memory_lines(state: &AppState, height: u16) -> (r: Vec<Vec<Span>>)
    ensures
        lines_view(r@) == memory_list(state@, height),
{
    let mut lines: Vec<Vec<Span>> = Vec::new();
    let n: usize = state.memory.len();
    let ghost want = memory_list(state@, height);
    if n == 0 {
        push_line(&mut lines, line_of(" (none yet)", italic(Color::Muted)));
        proof {
            assert(lines_view(lines@) =~= want);
        }
        return lines;
    }
    let mut i: usize = 0;
    proof {
        assert(lines_view(lines@) =~= want.take(0));
    }
    while i < n && i < height as usize
        invariant
            n == state.memory@.len(),
            n > 0,
            i <= n,
            i <= height,
            want == memory_list(state@, height),
            lines_view(lines@) == want.take(i as int),
        decreases n - i,
    {
        let ghost had = lines_view(lines@);
        push_line(&mut lines, render_memory_line(&state.memory[n - 1 - i]));
        proof {
            assert(want.take(i + 1) =~= want.take(i as int).push(want[i as int]));
        }
        i += 1;
    }
    proof {
        assert(want.take(want.len() as int) =~= want);
    }
    lines
}

// --------------------------------------------------------------------- help

/// A text padded with spaces to eighteen characters.
pub open spec fn padded(s: Seq<char>) -> Seq<char> {
    if s.len() < 18 {
        s + spaces((18 - s.len()) as nat)
    } else {
        s
    }
}

/// A row of the help: a key and what it does.
pub open spec fn help_row(key: Seq<char>, what: Seq<char>) -> Seq<SpanView> {
    seq![
        run("  "@ + padded(key), spec_fg(Color::Emphasis)),
        run("  "@, spec_fg(Color::Muted)),
        run(what, spec_fg(Color::Fg)),
    ]
}

/// The title of a group of the help.
pub open spec fn help_group(title: Seq<char>) -> Seq<SpanView> {
    seq![run(title, spec_bold(Color::Teal))]
}

/// The help.
pub open spec fn help_text() -> Seq<Seq<SpanView>> {
    seq![
        help_group("always"@),
        help_row("Tab / Shift+Tab"@, "cycle focus"@),
        help_row("↑/↓ or j/k"@, "scroll chat / sidebar"@),
        help_row("Enter"@, "send"@),
        help_row("Esc"@, "cancel input / close overlay"@),
        help_row("?"@, "this overlay"@),
        help_row("Ctrl-C"@, "quit"@),
        Seq::empty(),
        help_group("chat"@),
        help_row("PgUp / PgDn"@, "page"@),
        help_row("g / G"@, "top / bottom"@),
        help_row("f"@, "follow tail (toggle)"@),
        Seq::empty(),
        help_group("actions"@),
        help_row("Tab / Shift+Tab"@, "cycle active agent"@),
        help_row("Ctrl-N"@, "new run (resets chat)"@),
        help_row("Ctrl-L"@, "clear chat log"@),
        Seq::empty(),
        help_group("slash commands"@),
        help_row("/start <goal>"@, "spawn supervisor pipeline"@),
        help_row("/stop"@, "stop supervisor"@),
        help_row("/help"@, "show this overlay"@),
        help_row("/test"@, "load chat-log fixture showing every style"@),
        Seq::empty(),
    ]
}

/// Appends a row of the help.
fn push_help_row(lines: &mut Vec<Vec<Span>>, key: &str, what: &str)
    ensures
        lines_view(final(lines)@) == lines_view(old(lines)@).push(help_row(key@, what@)),
{
    let mut s = "  ".to_owned();
    s.append(key);
    let n: usize = chars_of(key).len();
    if n < 18 {
        s.append(blanks(18 - n).as_str());
    }
    let mut line: Vec<Span> = Vec::new();
    proof {
        assert(s@ =~= "  "@ + padded(key@));
    }
    push_run(&mut line, s.as_str(), fg(Color::Emphasis));
    push_run(&mut line, "  ", dim());
    push_run(&mut line, what, fg(Color::Fg));
    proof {
        assert(line_view(line@) =~= help_row(key@, what@));
    }
    push_line(lines, line);
}

/// Appends the title of a group of the help.
fn push_help_group(lines: &mut Vec<Vec<Span>>, title: &str)
    ensures
        lines_view(final(lines)@) == lines_view(old(lines)@).push(help_group(title@)),
{
    push_line(lines, line_of(title, bold(Color::Teal)));
}

/// The help.
pub fn help_lines() -> (r: Vec<Vec<Span>>)
    ensures
        lines_view(r@) == help_text(),
{
    let mut lines: Vec<Vec<Span>> = Vec::new();
    push_help_group(&mut lines, "always");
    push_help_row(&mut lines, "Tab / Shift+Tab", "cycle focus");
    push_help_row(&mut lines, "↑/↓ or j/k", "scroll chat / sidebar");
    push_help_row(&mut lines, "Enter", "send");
    push_help_row(&mut lines, "Esc", "cancel input / close overlay");
    push_help_row(&mut lines, "?", "this overlay");
    push_help_row(&mut lines, "Ctrl-C", "quit");
    push_blank(&mut lines);
    push_help_group(&mut lines, "chat");
    push_help_row(&mut lines, "PgUp / PgDn", "page");
    push_help_row(&mut lines, "g / G", "top / bottom");
    push_help_row(&mut lines, "f", "follow tail (toggle)");
    push_blank(&mut lines);
    push_help_group(&mut lines, "actions");
    push_help_row(&mut lines, "Tab / Shift+Tab", "cycle active agent");
    push_help_row(&mut lines, "Ctrl-N", "new run (resets chat)");
    push_help_row(&mut lines, "Ctrl-L", "clear chat log");
    push_blank(&mut lines);
    push_help_group(&mut lines, "slash commands");
    push_help_row(&mut lines, "/start <goal>", "spawn supervisor pipeline");
    push_help_row(&mut lines, "/stop", "stop supervisor");
    push_help_row(&mut lines, "/help", "show this overlay");
    push_help_row(&mut lines, "/test", "load chat-log fixture showing every style");
    push_blank(&mut lines);
    proof {
        assert(lines_view(lines@) =~= help_text());
    }
    lines
}

// --------------------------------------------------------------------- laws

/// Below 60 columns or 20 rows only a note is drawn; the help covers everything else, and
/// the first screen the panels.
pub proof fn law_which_screen_is_drawn(width: u16, height: u16, s: AppView)
    ensures
        screen_of(width, height, s) == Screen::TooSmall <==> width < 60 || height < 20,
        width >= 60 && height >= 20 && s.show_help ==> screen_of(width, height, s) == Screen::Help,
        width >= 60 && height >= 20 && !s.show_help && s.show_splash ==> screen_of(
            width,
            height,
            s,
        ) == Screen::Splash,
        width >= 60 && height >= 20 && !s.show_help && !s.show_splash ==> screen_of(
            width,
            height,
            s,
        ) == Screen::Main,
{
}

/// The spinner comes round after ten frames, and until it does no two frames are alike.
pub proof fn law_spinner_turns(i: usize, j: usize)
    ensures
        i % 10 == j % 10 <==> busy_glyph(i) == busy_glyph(j),
        i % 8 == j % 8 ==> quiet_glyph(i) == quiet_glyph(j),
        quiet_glyph(i) == "·"@ <==> i % 8 != 3 && i % 8 != 6,
{
    reveal_strlit("⠋");
    reveal_strlit("⠙");
    reveal_strlit("⠹");
    reveal_strlit("⠸");
    reveal_strlit("⠼");
    reveal_strlit("⠴");
    reveal_strlit("⠦");
    reveal_strlit("⠧");
    reveal_strlit("⠇");
    reveal_strlit("⠏");
    reveal_strlit("✦");
    reveal_strlit("✧");
    reveal_strlit("·");
    assert("⠋"@[0] == '⠋' && "⠙"@[0] == '⠙' && "⠹"@[0] == '⠹' && "⠸"@[0] == '⠸' && "⠼"@[0] == '⠼'
        && "⠴"@[0] == '⠴' && "⠦"@[0] == '⠦' && "⠧"@[0] == '⠧' && "⠇"@[0] == '⠇' && "⠏"@[0] == '⠏');
    assert("✦"@[0] == '✦' && "✧"@[0] == '✧' && "·"@[0] == '·');
}

/// A cell of a bar is filled just where the value reaches that many tenths of the maximum.
pub proof fn law_bar_shows_the_share(value: usize, max: usize, i: int)
    requires
        max > 0,
        0 <= i < 10,
    ensures
        bar(value, max)[0] == '[',
        bar(value, max)[11] == ']',
        bar(value, max)[i + 1] == '█' <==> (i + 1) * max <= 10 * value,
        bar(value, max)[i + 1] == '█' || bar(value, max)[i + 1] == '░',
        bar(value, 0)[i + 1] == '░',
{
    if value >= max {
        assert((i + 1) * max <= 10 * value) by (nonlinear_arith)
            requires
                0 <= i < 10,
                value >= max,
        ;
    } else {
        let f = value * 10 / max as int;
        assert((i < f) <==> (i + 1) * max <= 10 * value) by (nonlinear_arith)
            requires
                f == value * 10 / max as int,
                max > 0,
                0 <= value,
        ;
    }
}

/// A title stands between two blanks, with its number behind a dot where there is one that
/// is not zero.
pub proof fn law_how_titles_read(title: Seq<char>, n: usize)
    ensures
        title_of(title, None) == seq![' '] + title + seq![' '],
        title_of(title, Some(0)) == title_of(title, None),
        n > 0 ==> title_of(title, Some(n)) == seq![' '] + title + seq![' ', '·', ' '] + decimal(
            n as nat,
        ) + seq![' '],
{
    reveal_strlit(" ");
    reveal_strlit(" · ");
    assert(" "@ =~= seq![' ']);
    assert(" · "@ =~= seq![' ', '·', ' ']);
}

/// Whether a part of a line reads just this.
pub open spec fn shows(line: Seq<SpanView>, text: Seq<char>) -> bool {
    exists|i: int| 0 <= i < line.len() && (#[trigger] line[i]).text == text
}

/// The status bar tells the run by the start of its id, the active agent, the model where
/// one is known, and `idle` just while nothing runs.
pub proof fn law_what_the_status_bar_tells(s: AppView)
    ensures
        shows(status_spans(s), byte_prefix(s.run_id, 8)),
        shows(status_spans(s), agent_name(s)),
        s.model.len() > 0 ==> shows(status_spans(s), s.model),
        s.busy == Busy::Idle ==> status_spans(s).last().text == "idle"@,
        s.busy == Busy::Running ==> status_spans(s).last().text == quiet_glyph(s.tick as usize)
            + " running"@,
        status_spans(s).len() == (if s.model.len() > 0 {
            11nat
        } else {
            9
        }),
{
    let l = status_spans(s);
    let n = l.len() as int;
    assert(l[n - 5].text == byte_prefix(s.run_id, 8));
    assert(l[n - 3].text == agent_name(s));
    if s.model.len() > 0 {
        assert(l[4].text == s.model);
    }
}

/// The active agent alone is pointed at; every agent stands under its name, with what it does
/// below where the panel is higher than eight rows.
pub proof fn law_each_agent_has_its_rows(s: AppView, i: int, height: u16)
    requires
        0 <= i < 7,
    ensures
        agent_lines(s, i, height)[0][0].text == " › "@ <==> i == s.agent_idx,
        agent_lines(s, i, height)[0][1].text == all_agents()[i].name,
        height > 8 ==> agent_lines(s, i, height).len() == 3 && agent_lines(s, i, height)[1][0].text
            == "   "@ + role_hint(all_agents()[i].name),
        height <= 8 ==> agent_lines(s, i, height).len() == 2,
        agents_upto(s, (i + 1) as nat, height) == agents_upto(s, i as nat, height) + agent_lines(
            s,
            i,
            height,
        ),
        agents_upto(s, 0, height).len() == 0,
{
    reveal_strlit(" › ");
    reveal_strlit("   ");
    assert(" › "@[1] == '›' && "   "@[1] == ' ');
}

/// What each agent does is told apart from what the others do.
pub proof fn law_roles_are_told_apart(a: Seq<char>, b: Seq<char>)
    requires
        role_hint(a).len() > 0,
        role_hint(a) == role_hint(b),
    ensures
        a == b,
{
    reveal_strlit("plan + dispatch");
    reveal_strlit("novel hypotheses");
    reveal_strlit("review + verify");
    reveal_strlit("pairwise ELO");
    reveal_strlit("combine + simplify");
    reveal_strlit("synthesis + verdict");
    reveal_strlit("");
    assert("plan + dispatch"@[0] == 'p' && "plan + dispatch"@[1] == 'l' && "pairwise ELO"@[1]
        == 'a' && "novel hypotheses"@[0] == 'n' && "review + verify"@[0] == 'r'
        && "pairwise ELO"@[0] == 'p' && "combine + simplify"@[0] == 'c'
        && "synthesis + verdict"@[0] == 's');
}

/// The width of a line is that of its parts together, as far as a machine can count.
pub proof fn law_widths_add_up(line: Seq<SpanView>, span: SpanView)
    requires
        line_width(line) + text_width(span.text) <= usize::MAX,
    ensures
        line_width(Seq::empty()) == 0,
        line_width(line.push(span)) == line_width(line) + text_width(span.text),
{
    assert(line.push(span).drop_last() =~= line);
}

/// A line takes the fewest rows that hold it, and a blank line takes one; the rows of all
/// lines add up.
pub proof fn law_lines_take_the_fewest_rows(width: nat, visible: nat, widths: Seq<nat>)
    requires
        visible > 0,
    ensures
        wrapped_rows(0, visible) == 1,
        width <= wrapped_rows(width, visible) * visible,
        width > 0 ==> (wrapped_rows(width, visible) - 1) * visible < width,
        total_rows(Seq::empty(), visible) == 0,
        total_rows(widths, visible) + wrapped_rows(width, visible) <= usize::MAX ==> total_rows(
            widths.push(width),
            visible,
        ) == total_rows(widths, visible) + wrapped_rows(width, visible),
{
    assert(widths.push(width).drop_last() =~= widths);
    let q = width / visible;
    let r = width % visible;
    assert(width == q * visible + r && r < visible) by (nonlinear_arith)
        requires
            visible > 0,
            q == width / visible,
            r == width % visible,
    ;
    assert((q + 1) * visible == q * visible + visible) by (nonlinear_arith);
    assert((q - 1) * visible == q * visible - visible) by (nonlinear_arith);
}

/// What is measured of a chat: all of its rows, the rows of the panel, and how far it can be
/// moved; a panel without columns is measured as if it had one.
pub proof fn law_what_is_measured(widths: Seq<nat>, width: u16, height: u16)
    ensures
        metrics_of(widths, width, height).visible_h == height,
        width > 0 ==> metrics_of(widths, width, height).total == total_rows(widths, width as nat),
        metrics_of(widths, 0, height).total == total_rows(widths, 1),
        line_widths(Seq::<Seq<SpanView>>::empty()).len() == 0,
{
    lemma_rows_counted(widths, width as nat);
    lemma_rows_counted(widths, 1);
}

proof fn lemma_rows_counted(widths: Seq<nat>, visible: nat)
    ensures
        total_rows(widths, visible) <= usize::MAX,
{
}

/// A chat that follows its end is shown from its last screen; any other one from where it
/// was left, as far as it still reaches.
pub proof fn law_from_where_the_chat_is_shown(s: AppView, m: ChatMetrics)
    requires
        m.max_scroll <= u16::MAX,
    ensures
        s.follow_tail ==> scroll_of(s, m) == m.max_scroll,
        !s.follow_tail && s.chat_scroll <= m.max_scroll ==> scroll_of(s, m) == s.chat_scroll,
        !s.follow_tail && s.chat_scroll > m.max_scroll ==> scroll_of(s, m) == m.max_scroll,
{
}

/// The heading of the chat tells of a running session how many tasks are done and failed, in
/// this order, and for how many whole seconds it has run.
pub proof fn law_what_the_chat_heading_tells(s: AppView, started: u64, now: u64)
    requires
        s.supervisor_started_at == Some(started),
        started <= now,
    ensures
        !s.supervisor_running ==> chat_heading(s, now) == " chat "@,
        s.supervisor_running ==> exists|head: Seq<char>|
            chat_heading(s, now) == #[trigger] (head + decimal(s.tasks_done as nat)) + "✓ "@
                + decimal(s.tasks_failed as nat) + "✗ "@ + decimal(((now - started) / 1000) as nat)
                + "s "@,
{
    if s.supervisor_running {
        let head = " chat · sup "@ + bar(
            bounded((s.tasks_done + s.tasks_failed) as nat) as usize,
            20,
        ) + " "@;
        assert(chat_heading(s, now) == (head + decimal(s.tasks_done as nat)) + "✓ "@ + decimal(
            s.tasks_failed as nat,
        ) + "✗ "@ + decimal(((now - started) / 1000) as nat) + "s "@);
    }
}

/// Parts that hold blanks alone are taken from the front of a line; from the first other
/// part on it stays.
pub proof fn law_indent_is_taken_from_the_front(blanks: Seq<SpanView>, rest: Seq<SpanView>)
    requires
        forall|i: int, k: int|
            0 <= i < blanks.len() && 0 <= k < blanks[i].text.len() ==> #[trigger] blanks[i].text[k]
                == ' ',
        rest.len() > 0 ==> exists|k: int|
            0 <= k < rest[0].text.len() && #[trigger] rest[0].text[k] != ' ',
    ensures
        without_indent(blanks + rest) == rest,
    decreases blanks.len(),
{
    let line = blanks + rest;
    if blanks.len() > 0 {
        assert(line[0] == blanks[0]);
        assert(is_indent(line[0]));
        assert(line.skip(1) =~= blanks.skip(1) + rest);
        assert forall|i: int, k: int|
            0 <= i < blanks.skip(1).len() && 0 <= k < blanks.skip(1)[i].text.len() implies
            #[trigger] blanks.skip(1)[i].text[k] == ' ' by {
            assert(blanks[i + 1].text[k] == ' ');
        }
        law_indent_is_taken_from_the_front(blanks.skip(1), rest);
    } else {
        assert(line =~= rest);
        if rest.len() > 0 {
            assert(!is_indent(rest[0]));
        }
    }
}

/// What the user wrote, a tool with its agent and arguments, and a system line stand in the
/// chat as they are, each below a blank row.
pub proof fn law_entries_show_what_they_hold(s: AppView, i: int)
    requires
        0 <= i < s.log.len(),
    ensures
        ({
            let l = entry_lines(s, i);
            &&& l[0].len() == 0
            &&& match s.log[i] {
                ChatView::User(t) => l.len() == 3 && l[1].last().text == "you"@ && l[2].last().text
                    == t,
                ChatView::ToolCall { agent, tool, args } => {
                    &&& l.len() == 3
                    &&& l[1][2].text == tool
                    &&& l[1][3].text == " · "@ + agent
                    &&& json_compact(args) is None ==> l[2].last().text == args
                    &&& json_compact(args) matches Some(c) ==> l[2].last().text == c
                },
                ChatView::Assistant { agent, text } => l.len() >= 2 && l[1].len() >= 3 && l[1][2].text
                    == agent && (l[1][0].text == "✓"@ <==> s.streaming_assistant != Some(
                    i as usize,
                )),
                ChatView::System(t) => l.len() == 2 && l[1].last().text == t,
            }
        }),
{
    if let ChatView::Assistant { agent, text } = s.log[i] {
        let p = answer_prefix(s, i, agent);
        let l = entry_lines(s, i);
        assert(l[1].take(3) =~= p);
        assert(l[1][0] == l[1].take(3)[0] && l[1][2] == l[1].take(3)[2]);
        law_spinner_turns(s.tick as usize, 0);
        reveal_strlit("✓");
        reveal_strlit("⠋");
        reveal_strlit("⠙");
        reveal_strlit("⠹");
        reveal_strlit("⠸");
        reveal_strlit("⠼");
        reveal_strlit("⠴");
        reveal_strlit("⠦");
        reveal_strlit("⠧");
        reveal_strlit("⠇");
        reveal_strlit("⠏");
        assert("✓"@[0] == '✓');
        assert("⠋"@[0] == '⠋' && "⠙"@[0] == '⠙' && "⠹"@[0] == '⠹' && "⠸"@[0] == '⠸' && "⠼"@[0]
            == '⠼' && "⠴"@[0] == '⠴' && "⠦"@[0] == '⠦' && "⠧"@[0] == '⠧' && "⠇"@[0] == '⠇'
            && "⠏"@[0] == '⠏');
        assert(busy_glyph(s.tick as usize)[0] != '✓');
    }
}

/// An answer keeps all of its lines: the first behind its label, the others as they are; one
/// without any shows that it is awaited.
pub proof fn law_answers_keep_their_lines(prefix: Seq<SpanView>, body: Seq<Seq<SpanView>>, k: int)
    ensures
        body.len() == 0 ==> answer_lines(prefix, body).len() == 3 && answer_lines(prefix, body)[1]
            == prefix,
        body.len() > 0 ==> answer_lines(prefix, body).len() == body.len() + 1
            && answer_lines(prefix, body)[1] == prefix + without_indent(body[0]),
        0 < k < body.len() ==> answer_lines(prefix, body)[k + 1] == body[k],
{
}

/// The chat shows all entries, one below the other.
pub proof fn law_chat_shows_all_entries(s: AppView, n: nat)
    ensures
        chat_upto(s, 0).len() == 0,
        chat_upto(s, n + 1).take(chat_upto(s, n).len() as int) == chat_upto(s, n),
        chat_upto(s, n + 1).skip(chat_upto(s, n).len() as int) == entry_lines(s, n as int),
{
    let a = chat_upto(s, n);
    let b = entry_lines(s, n as int);
    assert((a + b).take(a.len() as int) =~= a);
    assert((a + b).skip(a.len() as int) =~= b);
}

/// The input shows what is typed while nothing runs; during a session it tells the counts of
/// tasks done and failed, and during a turn that the agent thinks.
pub proof fn law_what_the_input_shows(s: AppView)
    ensures
        !s.supervisor_running && s.busy == Busy::Idle ==> input_spans(s).last().text == s.input,
        !s.supervisor_running && s.busy == Busy::Running ==> input_spans(s).last().text
            == "agent thinking…"@,
        s.supervisor_running ==> input_spans(s).last().text == "supervisor running · "@ + decimal(
            s.tasks_done as nat,
        ) + " done / "@ + decimal(s.tasks_failed as nat) + " failed — /stop to end"@,
{
}

/// The footer names the panel that has the focus, with the keys of that panel behind it, and
/// ends with the brand; its glyph turns just while something runs.
pub proof fn law_what_the_footer_tells(s: AppView)
    ensures
        footer_left(s)[1].text == (match s.focus {
            Focus::Input => "input"@,
            Focus::Chat => "chat"@,
            Focus::Agents => "agents"@,
            Focus::SidebarTasks => "tasks"@,
            Focus::SidebarMemory => "memory"@,
        }),
        s.focus == Focus::Input ==> footer_left(s)[3].text == "Enter"@,
        s.focus == Focus::Chat ==> footer_left(s)[3].text == "j/k"@,
        s.focus == Focus::Agents ==> footer_left(s)[3].text == "Tab"@,
        s.focus == Focus::SidebarTasks ==> footer_left(s)[5].text == "↑↓"@,
        s.focus == Focus::SidebarMemory ==> footer_left(s)[5].text == "↑↓"@,
        footer_left(s).last().text == " quit"@,
        footer_right(s)[0].text == (if s.supervisor_running || s.busy == Busy::Running {
            busy_glyph(s.tick as usize)
        } else {
            "·"@
        }),
        footer_right(s).last().text == "scientist"@,
{
}

/// The newest tasks are listed first, as many as there are rows, each in one line with its
/// worker and action; how it stands is told by its sign.
pub proof fn law_newest_tasks_come_first(s: AppView, height: u16, i: int)
    requires
        s.tasks.len() > 0,
        0 <= i < s.tasks.len(),
        i < height,
    ensures
        ({
            let t = s.tasks[s.tasks.len() - 1 - i];
            let sign = match t.status {
                TaskStatus::Claimed => "›"@,
                TaskStatus::Running => "›"@,
                TaskStatus::Done => "✓"@,
                TaskStatus::Failed => "✗"@,
            };
            let l = task_list(s, height);
            &&& l.len() <= height && l.len() <= s.tasks.len()
            &&& l.len() == height || l.len() == s.tasks.len()
            &&& l[i].len() == 1
            &&& (t.worker matches Some(w) && t.action matches Some(a)) ==> l[i][0].text == sign
                + " "@ + byte_prefix(t.worker->0, 8) + " "@ + t.action->0
        }),
{
}

/// The newest memory writes are listed first, as many as there are rows, each with where it
/// belongs and what it says.
pub proof fn law_newest_writes_come_first(s: AppView, height: u16, i: int)
    requires
        s.memory.len() > 0,
        0 <= i < s.memory.len(),
        i < height,
    ensures
        ({
            let l = memory_list(s, height);
            &&& l.len() <= height && l.len() <= s.memory.len()
            &&& l.len() == height || l.len() == s.memory.len()
            &&& match s.memory[s.memory.len() - 1 - i] {
                MemoryView::Semantic { scope, summary } => l[i][1].text == "["@ + scope + "] "@
                    && l[i][2].text == summary,
                MemoryView::Behavior { agent, pattern } => l[i][1].text == agent + ": "@
                    && l[i][2].text == pattern,
            }
        }),
{
}

/// A row of the help names a key, filled up with blanks to eighteen columns, and what it
/// does.
pub proof fn law_help_rows_line_up(key: Seq<char>, what: Seq<char>)
    requires
        key.len() <= 18,
    ensures
        padded(key).len() == 18,
        padded(key).take(key.len() as int) == key,
        forall|i: int| key.len() <= i < 18 ==> padded(key)[i] == ' ',
        help_row(key, what)[0].text == "  "@ + padded(key),
        help_row(key, what).last().text == what,
{
    assert(padded(key).take(key.len() as int) =~= key);
}

/// A terminal that is too small is told how large it is and how large it has to be.
pub proof fn law_small_terminals_are_told_their_size(width: u16, height: u16, s: AppView)
    ensures
        small_lines(width, height, s)[1][0].text == "terminal too small: "@ + decimal(width as nat)
            + "×"@ + decimal(height as nat) + " (need 60×20)"@,
        s.model.len() > 0 ==> small_lines(width, height, s).last()[0].text == "model · "@ + s.model,
        small_lines(width, height, s).len() == (if s.model.len() > 0 {
            6nat
        } else {
            5
        }),
{
}

} // verus!
