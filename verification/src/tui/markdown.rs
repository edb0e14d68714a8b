//! Markdown as styled terminal lines.
//!
//! `pulldown-cmark` reads the text; the walker here turns its events into lines
//! of styled spans. Headings get an accent bar and a blank line on either side,
//! every other block stays tight. Bullets rotate through three glyphs, a fence
//! with a language gets a thick rule, a quotation a broken bar, and the lines
//! never end with a blank one.

use vstd::prelude::*;
use pulldown_cmark::{CodeBlockKind, Event, Options, Parser, Tag};

use super::theme::{
    bold, fg, italic, line_of, line_view, lines_view, plain, push_line, push_run, run, section,
    spec_bold, spec_fg, spec_italic, spec_plain, Color, Span, SpanView, Style,
};
use crate::text::{begins, decimal, push_decimal, split_char, split_on, starts_with, str_eq, views};

verus! {

// ------------------------------------------------------------------- events

/// An event of a Markdown document as it is read: the kind of element that
/// starts or ends stands by its name.
pub enum MdNode {
    /// A code block inside a fence starts, with the fence's info string.
    Fence(String),
    /// A list starts, with the number of its first item where it is ordered.
    List(Option<u64>),
    /// Another element starts.
    Start(String),
    End(String),
    Text(String),
    Code(String),
    SoftBreak,
    HardBreak,
    Rule,
    Other,
}

/// The element that a start event opens. `Other` stands for every element that
/// is shown without any mark of its own, and for an event that opens nothing.
pub enum MdTag {
    Paragraph,
    Heading(u8),
    BlockQuote,
    /// A code block inside a fence, with the fence's info string.
    Fence(String),
    /// A code block set off by indentation.
    Indented,
    /// A list, with the number of its first item where it is ordered.
    List(Option<u64>),
    Item,
    Emphasis,
    Strong,
    Strikethrough,
    Link,
    Other,
}

/// The element that an end event closes. `Other` as in [`MdTag`].
#[derive(Clone, Copy, Debug, PartialEq, Eq, Structural)]
pub enum MdEnd {
    Paragraph,
    Heading,
    BlockQuote,
    CodeBlock,
    List,
    Item,
    Emphasis,
    Strong,
    Strikethrough,
    Link,
    Other,
}

/// An event of a Markdown document.
pub enum MdEvent {
    Start(MdTag),
    End(MdEnd),
    Text(String),
    Code(String),
    SoftBreak,
    HardBreak,
    Rule,
    Other,
}

/// What an [`MdNode`] holds.
pub enum NodeView {
    Fence(Seq<char>),
    List(Option<u64>),
    Start(Seq<char>),
    End(Seq<char>),
    Text(Seq<char>),
    Code(Seq<char>),
    SoftBreak,
    HardBreak,
    Rule,
    Other,
}

/// What an [`MdTag`] holds.
pub enum TagView {
    Paragraph,
    Heading(u8),
    BlockQuote,
    Fence(Seq<char>),
    Indented,
    List(Option<u64>),
    Item,
    Emphasis,
    Strong,
    Strikethrough,
    Link,
    Other,
}

/// What an [`MdEvent`] holds.
pub enum EventView {
    Start(TagView),
    End(MdEnd),
    Text(Seq<char>),
    Code(Seq<char>),
    SoftBreak,
    HardBreak,
    Rule,
    Other,
}

impl View for MdNode {
    type V = NodeView;

    open spec fn view(&self) -> NodeView {
        match self {
            MdNode::Fence(s) => NodeView::Fence(s@),
            MdNode::List(n) => NodeView::List(*n),
            MdNode::Start(s) => NodeView::Start(s@),
            MdNode::End(s) => NodeView::End(s@),
            MdNode::Text(s) => NodeView::Text(s@),
            MdNode::Code(s) => NodeView::Code(s@),
            MdNode::SoftBreak => NodeView::SoftBreak,
            MdNode::HardBreak => NodeView::HardBreak,
            MdNode::Rule => NodeView::Rule,
            MdNode::Other => NodeView::Other,
        }
    }
}

impl View for MdTag {
    type V = TagView;

    open spec fn view(&self) -> TagView {
        match self {
            MdTag::Paragraph => TagView::Paragraph,
            MdTag::Heading(n) => TagView::Heading(*n),
            MdTag::BlockQuote => TagView::BlockQuote,
            MdTag::Fence(s) => TagView::Fence(s@),
            MdTag::Indented => TagView::Indented,
            MdTag::List(n) => TagView::List(*n),
            MdTag::Item => TagView::Item,
            MdTag::Emphasis => TagView::Emphasis,
            MdTag::Strong => TagView::Strong,
            MdTag::Strikethrough => TagView::Strikethrough,
            MdTag::Link => TagView::Link,
            MdTag::Other => TagView::Other,
        }
    }
}

impl View for MdEvent {
    type V = EventView;

    open spec fn view(&self) -> EventView {
        match self {
            MdEvent::Start(t) => EventView::Start(t@),
            MdEvent::End(e) => EventView::End(*e),
            MdEvent::Text(s) => EventView::Text(s@),
            MdEvent::Code(s) => EventView::Code(s@),
            MdEvent::SoftBreak => EventView::SoftBreak,
            MdEvent::HardBreak => EventView::HardBreak,
            MdEvent::Rule => EventView::Rule,
            MdEvent::Other => EventView::Other,
        }
    }
}

/// What a list of nodes holds.
pub open spec fn nodes_view(v: Seq<MdNode>) -> Seq<NodeView> {
    v.map_values(|n: MdNode| n@)
}

/// What a list of events holds.
pub open spec fn events_view(v: Seq<MdEvent>) -> Seq<EventView> {
    v.map_values(|e: MdEvent| e@)
}

/// The events that `pulldown_cmark::Parser` yields for a text, with
/// strikethrough and tables switched on.
pub uninterp spec fn md_nodes(text: Seq<char>) -> Seq<NodeView>;

/// `pulldown_cmark::Parser::new_ext` with strikethrough and tables: its events,
/// one for one and in order. They depend on the text alone. An element that
/// starts or ends is named as the `Debug` form of its `TagEnd` names it.
#[verifier::external_body]
fn parse_nodes(input: &str) -> (r: Vec<MdNode>)
    ensures
        nodes_view(r@) == md_nodes(input@),
{
    let node = |event| match event {
        Event::Start(Tag::CodeBlock(CodeBlockKind::Fenced(s))) => MdNode::Fence(s.into_string()),
        Event::Start(Tag::List(n)) => MdNode::List(n),
        Event::Start(tag) => MdNode::Start(format!("{:?}", tag.to_end())),
        Event::End(tag) => MdNode::End(format!("{:?}", tag)),
        Event::Text(text) => MdNode::Text(text.into_string()),
        Event::Code(text) => MdNode::Code(text.into_string()),
        Event::SoftBreak => MdNode::SoftBreak,
        Event::HardBreak => MdNode::HardBreak,
        Event::Rule => MdNode::Rule,
        _ => MdNode::Other,
    };
    let options = Options::ENABLE_STRIKETHROUGH | Options::ENABLE_TABLES;
    Parser::new_ext(input, options).map(node).collect()
}

/// The level of the heading that a name stands for.
pub open spec fn heading_level(name: Seq<char>) -> Option<u8> {
    if name == "Heading(H1)"@ {
        Some(1)
    } else if name == "Heading(H2)"@ {
        Some(2)
    } else if name == "Heading(H3)"@ {
        Some(3)
    } else if name == "Heading(H4)"@ {
        Some(4)
    } else if name == "Heading(H5)"@ {
        Some(5)
    } else if name == "Heading(H6)"@ {
        Some(6)
    } else {
        None
    }
}

/// Whether a name stands for a quotation, of whatever kind.
pub open spec fn names_quote(name: Seq<char>) -> bool {
    begins(name, "BlockQuote("@)
}

/// The element of the name `name` that starts.
pub open spec fn start_named(name: Seq<char>) -> TagView {
    if name == "Paragraph"@ {
        TagView::Paragraph
    } else if heading_level(name) is Some {
        TagView::Heading(heading_level(name)->0)
    } else if names_quote(name) {
        TagView::BlockQuote
    } else if name == "CodeBlock"@ {
        TagView::Indented
    } else if name == "Item"@ {
        TagView::Item
    } else if name == "Emphasis"@ {
        TagView::Emphasis
    } else if name == "Strong"@ {
        TagView::Strong
    } else if name == "Strikethrough"@ {
        TagView::Strikethrough
    } else if name == "Link"@ {
        TagView::Link
    } else {
        TagView::Other
    }
}

/// The element of the name `name` that ends.
pub open spec fn end_named(name: Seq<char>) -> MdEnd {
    if name == "Paragraph"@ {
        MdEnd::Paragraph
    } else if heading_level(name) is Some {
        MdEnd::Heading
    } else if names_quote(name) {
        MdEnd::BlockQuote
    } else if name == "CodeBlock"@ {
        MdEnd::CodeBlock
    } else if name == "List(true)"@ || name == "List(false)"@ {
        MdEnd::List
    } else if name == "Item"@ {
        MdEnd::Item
    } else if name == "Emphasis"@ {
        MdEnd::Emphasis
    } else if name == "Strong"@ {
        MdEnd::Strong
    } else if name == "Strikethrough"@ {
        MdEnd::Strikethrough
    } else if name == "Link"@ {
        MdEnd::Link
    } else {
        MdEnd::Other
    }
}

/// The event that a node stands for.
pub open spec fn event_of(node: NodeView) -> EventView {
    match node {
        NodeView::Fence(s) => EventView::Start(TagView::Fence(s)),
        NodeView::List(n) => EventView::Start(TagView::List(n)),
        NodeView::Start(name) => EventView::Start(start_named(name)),
        NodeView::End(name) => EventView::End(end_named(name)),
        NodeView::Text(s) => EventView::Text(s),
        NodeView::Code(s) => EventView::Code(s),
        NodeView::SoftBreak => EventView::SoftBreak,
        NodeView::HardBreak => EventView::HardBreak,
        NodeView::Rule => EventView::Rule,
        NodeView::Other => EventView::Other,
    }
}

/// The events that a list of nodes stands for.
pub open spec fn events_of(nodes: Seq<NodeView>) -> Seq<EventView> {
    nodes.map_values(|n: NodeView| event_of(n))
}

/// The events of the document `text`.
pub open spec fn md_events(text: Seq<char>) -> Seq<EventView> {
    events_of(md_nodes(text))
}

fn level_of(name: &str) -> (r: Option<u8>)
    ensures
        r == heading_level(name@),
{
    if str_eq(name, "Heading(H1)") {
        Some(1)
    } else if str_eq(name, "Heading(H2)") {
        Some(2)
    } else if str_eq(name, "Heading(H3)") {
        Some(3)
    } else if str_eq(name, "Heading(H4)") {
        Some(4)
    } else if str_eq(name, "Heading(H5)") {
        Some(5)
    } else if str_eq(name, "Heading(H6)") {
        Some(6)
    } else {
        None
    }
}

fn open_tag(name: &str) -> (r: MdTag)
    ensures
        r@ == start_named(name@),
{
    if str_eq(name, "Paragraph") {
        return MdTag::Paragraph;
    }
    if let Some(level) = level_of(name) {
        return MdTag::Heading(level);
    }
    if starts_with(name, "BlockQuote(") {
        MdTag::BlockQuote
    } else if str_eq(name, "CodeBlock") {
        MdTag::Indented
    } else if str_eq(name, "Item") {
        MdTag::Item
    } else if str_eq(name, "Emphasis") {
        MdTag::Emphasis
    } else if str_eq(name, "Strong") {
        MdTag::Strong
    } else if str_eq(name, "Strikethrough") {
        MdTag::Strikethrough
    } else if str_eq(name, "Link") {
        MdTag::Link
    } else {
        MdTag::Other
    }
}

fn close_tag(name: &str) -> (r: MdEnd)
    ensures
        r == end_named(name@),
{
    if str_eq(name, "Paragraph") {
        MdEnd::Paragraph
    } else if level_of(name).is_some() {
        MdEnd::Heading
    } else if starts_with(name, "BlockQuote(") {
        MdEnd::BlockQuote
    } else if str_eq(name, "CodeBlock") {
        MdEnd::CodeBlock
    } else if str_eq(name, "List(true)") || str_eq(name, "List(false)") {
        MdEnd::List
    } else if str_eq(name, "Item") {
        MdEnd::Item
    } else if str_eq(name, "Emphasis") {
        MdEnd::Emphasis
    } else if str_eq(name, "Strong") {
        MdEnd::Strong
    } else if str_eq(name, "Strikethrough") {
        MdEnd::Strikethrough
    } else if str_eq(name, "Link") {
        MdEnd::Link
    } else {
        MdEnd::Other
    }
}

/// The events that a list of nodes stands for.
pub fn name_events(nodes: &Vec<MdNode>) -> (r: Vec<MdEvent>)
    ensures
        events_view(r@) == events_of(nodes_view(nodes@)),
{
    let ghost want = events_of(nodes_view(nodes@));
    let n: usize = nodes.len();
    let mut out: Vec<MdEvent> = Vec::new();
    let mut i: usize = 0;
    while i < n
        invariant
            n == nodes@.len(),
            i <= n,
            want == events_of(nodes_view(nodes@)),
            events_view(out@) == want.take(i as int),
        decreases n - i,
    {
        let ghost before = out@;
        let event = match &nodes[i] {
            MdNode::Fence(s) => MdEvent::Start(MdTag::Fence(s.clone())),
            MdNode::List(k) => MdEvent::Start(MdTag::List(*k)),
            MdNode::Start(name) => MdEvent::Start(open_tag(name.as_str())),
            MdNode::End(name) => MdEvent::End(close_tag(name.as_str())),
            MdNode::Text(s) => MdEvent::Text(s.clone()),
            MdNode::Code(s) => MdEvent::Code(s.clone()),
            MdNode::SoftBreak => MdEvent::SoftBreak,
            MdNode::HardBreak => MdEvent::HardBreak,
            MdNode::Rule => MdEvent::Rule,
            MdNode::Other => MdEvent::Other,
        };
        proof {
            assert(nodes_view(nodes@)[i as int] == nodes@[i as int]@);
            assert(event@ == want[i as int]);
        }
        let ghost ev = event@;
        out.push(event);
        proof {
            assert(events_view(out@) =~= events_view(before).push(ev));
            assert(want.take(i + 1) == want.take(i as int).push(want[i as int]));
        }
        i += 1;
    }
    proof {
        assert(want.take(want.len() as int) == want);
    }
    out
}

/// The events of the document `input`.
pub fn read_events(input: &str) -> (r: Vec<MdEvent>)
    ensures
        events_view(r@) == md_events(input@),
{
    let nodes = parse_nodes(input);
    name_events(&nodes)
}

// ------------------------------------------------------------------- walker

/// The colours that differ between the two palettes of the renderer.
#[derive(Clone, Copy, Debug, PartialEq, Eq, Structural)]
pub struct Palette {
    pub strong: Color,
    pub h1: Color,
    pub h2_h3: Color,
    pub h4_h6: Color,
}

/// Blue headings and blue bold text.
pub open spec fn spec_blue_palette() -> Palette {
    Palette { strong: Color::Blue, h1: Color::Blue, h2_h3: Color::Blue, h4_h6: Color::Blue }
}

/// Headings that fade from the accent to body text, bold text in white.
pub open spec fn spec_graded_palette() -> Palette {
    Palette { strong: Color::Emphasis, h1: Color::Teal, h2_h3: Color::Emphasis, h4_h6: Color::Fg }
}

/// Where the walker stands: the finished lines, the line under way, the inline
/// styles that are open, the list that it is in and whether it is in code.
pub struct WalkView {
    pub lines: Seq<Seq<SpanView>>,
    pub current: Seq<SpanView>,
    pub inline: Seq<Style>,
    /// `Some(true)` in an ordered list, `Some(false)` in an unordered one.
    pub ordered: Option<bool>,
    pub counter: u64,
    pub bullet: u8,
    pub in_code: bool,
}

/// The line under way is finished, unless there is nothing on it.
pub open spec fn flushed(w: WalkView) -> WalkView {
    if w.current.len() == 0 {
        w
    } else {
        WalkView { lines: w.lines.push(w.current), current: Seq::empty(), ..w }
    }
}

/// A run of text goes on the line under way.
pub open spec fn put(w: WalkView, text: Seq<char>, style: Style) -> WalkView {
    WalkView { current: w.current.push(run(text, style)), ..w }
}

/// The pieces go on lines of their own, each after the first on a new one; an
/// empty piece adds nothing.
pub open spec fn put_pieces(w: WalkView, pieces: Seq<Seq<char>>, style: Style) -> WalkView
    decreases pieces.len(),
{
    if pieces.len() == 0 {
        w
    } else {
        let before = put_pieces(w, pieces.drop_last(), style);
        let fresh = if pieces.len() == 1 {
            before
        } else {
            flushed(before)
        };
        if pieces.last().len() == 0 {
            fresh
        } else {
            put(fresh, pieces.last(), style)
        }
    }
}

/// A blank line.
pub open spec fn blank(w: WalkView) -> WalkView {
    WalkView { lines: w.lines.push(Seq::empty()), ..w }
}

/// Code, inline or in a block.
pub open spec fn code_style() -> Style {
    Style { bg: Some(Color::BgOverlay), ..spec_fg(Color::Accent2) }
}

/// The style of a heading's accent bar.
pub open spec fn spec_heading_style(level: u8, p: Palette) -> Style {
    if level == 1 {
        spec_bold(p.h1)
    } else if level == 2 || level == 3 {
        spec_bold(p.h2_h3)
    } else {
        spec_bold(p.h4_h6)
    }
}

/// The styles of the stack laid over each other: the last colour wins, the
/// attributes add up.
pub open spec fn laid_over(stack: Seq<Style>) -> Style
    decreases stack.len(),
{
    if stack.len() == 0 {
        spec_plain()
    } else {
        let under = laid_over(stack.drop_last());
        let top = stack.last();
        Style {
            fg: if top.fg is Some {
                top.fg
            } else {
                under.fg
            },
            bg: None,
            bold: under.bold || top.bold,
            italic: under.italic || top.italic,
            underlined: under.underlined || top.underlined,
            crossed_out: under.crossed_out || top.crossed_out,
        }
    }
}

/// The style of body text: calm italics, or the open inline styles.
pub open spec fn body_style(stack: Seq<Style>) -> Style {
    if stack.len() == 0 {
        spec_italic(Color::Fg)
    } else {
        laid_over(stack)
    }
}

/// What an opened element does.
pub open spec fn opened(w: WalkView, tag: TagView, p: Palette) -> WalkView {
    match tag {
        TagView::Heading(level) => {
            let f = flushed(w);
            let aired = if f.lines.len() > 0 && f.lines.last().len() > 0 {
                blank(f)
            } else {
                f
            };
            put(aired, "▌ "@, spec_heading_style(level, p))
        },
        TagView::Paragraph => flushed(w),
        TagView::BlockQuote => put(flushed(w), "╎ "@, spec_italic(Color::Muted)),
        TagView::Fence(lang) => {
            let f = WalkView { in_code: true, ..flushed(w) };
            if lang.len() == 0 {
                put(f, "━━"@, spec_fg(Color::Section))
            } else {
                flushed(put(f, "━━ "@ + lang + " "@, spec_fg(Color::Section)))
            }
        },
        TagView::Indented => WalkView { in_code: true, ..flushed(w) },
        TagView::List(first) => WalkView {
            ordered: Some(first is Some),
            counter: match first {
                Some(n) => n,
                None => 1,
            },
            bullet: 0,
            ..flushed(w)
        },
        TagView::Item => {
            let f = flushed(w);
            match f.ordered {
                Some(true) => WalkView {
                    counter: if f.counter < u64::MAX {
                        (f.counter + 1) as u64
                    } else {
                        f.counter
                    },
                    ..put(f, decimal(f.counter as nat) + ". "@, spec_fg(Color::Muted))
                },
                Some(false) => WalkView {
                    bullet: ((f.bullet + 1) % 3) as u8,
                    ..put(f, bullet_glyph(f.bullet), spec_fg(Color::Teal))
                },
                None => f,
            }
        },
        TagView::Strong => WalkView { inline: w.inline.push(spec_bold(p.strong)), ..w },
        TagView::Emphasis => WalkView { inline: w.inline.push(spec_italic(Color::Fg)), ..w },
        TagView::Strikethrough => WalkView {
            inline: w.inline.push(Style { crossed_out: true, ..spec_fg(Color::Muted) }),
            ..w
        },
        TagView::Link => WalkView {
            inline: w.inline.push(Style { underlined: true, ..spec_fg(Color::Section) }),
            ..w
        },
        TagView::Other => w,
    }
}

/// The three bullets, in the order in which they rotate.
pub open spec fn bullet_glyph(n: u8) -> Seq<char> {
    if n % 3 == 0 {
        "› "@
    } else if n % 3 == 1 {
        "· "@
    } else {
        "∘ "@
    }
}

/// The innermost inline style ends.
pub open spec fn inline_closed(w: WalkView) -> WalkView {
    if w.inline.len() == 0 {
        w
    } else {
        WalkView { inline: w.inline.drop_last(), ..w }
    }
}

/// What a closed element does.
pub open spec fn closed(w: WalkView, end: MdEnd) -> WalkView {
    match end {
        MdEnd::Heading => blank(flushed(w)),
        MdEnd::Paragraph => flushed(w),
        MdEnd::BlockQuote => flushed(w),
        MdEnd::CodeBlock => blank(WalkView { in_code: false, ..flushed(w) }),
        MdEnd::List => WalkView { ordered: None, ..flushed(w) },
        MdEnd::Item => flushed(w),
        MdEnd::Strong => inline_closed(w),
        MdEnd::Emphasis => inline_closed(w),
        MdEnd::Strikethrough => inline_closed(w),
        MdEnd::Link => inline_closed(w),
        MdEnd::Other => w,
    }
}

/// What one event does.
pub open spec fn stepped(w: WalkView, event: EventView, p: Palette) -> WalkView {
    match event {
        EventView::Start(tag) => opened(w, tag, p),
        EventView::End(end) => closed(w, end),
        EventView::Code(text) => put_pieces(w, split_on(text, '\n'), code_style()),
        EventView::Text(text) => put_pieces(
            w,
            split_on(text, '\n'),
            if w.in_code {
                code_style()
            } else {
                body_style(w.inline)
            },
        ),
        EventView::SoftBreak => put(w, " "@, spec_plain()),
        EventView::HardBreak => flushed(w),
        EventView::Rule => {
            let f = flushed(w);
            WalkView { lines: f.lines.push(seq![run("───"@, spec_fg(Color::Section))]), ..f }
        },
        EventView::Other => w,
    }
}

/// Where the walker begins.
pub open spec fn walk_start() -> WalkView {
    WalkView {
        lines: Seq::empty(),
        current: Seq::empty(),
        inline: Seq::empty(),
        ordered: None,
        counter: 1,
        bullet: 0,
        in_code: false,
    }
}

/// Where the walker stands after the events.
pub open spec fn walked(events: Seq<EventView>, p: Palette) -> WalkView
    decreases events.len(),
{
    if events.len() == 0 {
        walk_start()
    } else {
        stepped(walked(events.drop_last(), p), events.last(), p)
    }
}

/// The lines up to the last one that is not blank.
pub open spec fn without_trailing_blanks(lines: Seq<Seq<SpanView>>) -> Seq<Seq<SpanView>>
    decreases lines.len(),
{
    if lines.len() > 0 && lines.last().len() == 0 {
        without_trailing_blanks(lines.drop_last())
    } else {
        lines
    }
}

/// The lines that a document's events are shown as.
pub open spec fn rendered(events: Seq<EventView>, p: Palette) -> Seq<Seq<SpanView>> {
    without_trailing_blanks(flushed(walked(events, p)).lines)
}

/// The walker.
struct Walk {
    lines: Vec<Vec<Span>>,
    current: Vec<Span>,
    inline: Vec<Style>,
    ordered: Option<bool>,
    counter: u64,
    bullet: u8,
    in_code: bool,
}

impl View for Walk {
    type V = WalkView;

    closed spec fn view(&self) -> WalkView {
        WalkView {
            lines: lines_view(self.lines@),
            current: line_view(self.current@),
            inline: self.inline@,
            ordered: self.ordered,
            counter: self.counter,
            bullet: self.bullet,
            in_code: self.in_code,
        }
    }
}

impl Walk {
    fn flush(&mut self)
        ensures
            final(self)@ == flushed(old(self)@),
    {
        if self.current.len() > 0 {
            let mut line: Vec<Span> = Vec::new();
            std::mem::swap(&mut line, &mut self.current);
            push_line(&mut self.lines, line);
            proof {
                assert(line_view(self.current@) =~= Seq::<SpanView>::empty());
            }
        }
    }

    fn put(&mut self, text: &str, style: Style)
        ensures
            final(self)@ == put(old(self)@, text@, style),
    {
        push_run(&mut self.current, text, style);
    }

    fn blank(&mut self)
        ensures
            final(self)@ == blank(old(self)@),
    {
        let line: Vec<Span> = Vec::new();
        proof {
            assert(line_view(line@) =~= Seq::<SpanView>::empty());
        }
        push_line(&mut self.lines, line);
    }

    /// Puts a text on the line under way, breaking the line at each line feed.
    fn push_with_newlines(&mut self, text: &str, style: Style)
        ensures
            final(self)@ == put_pieces(old(self)@, split_on(text@, '\n'), style),
    {
        let pieces = split_char(text, '\n');
        let ghost all = views(pieces@);
        let ghost start = self@;
        let mut i: usize = 0;
        proof {
            assert(all.take(0) == Seq::<Seq<char>>::empty());
        }
        while i < pieces.len()
            invariant
                i <= pieces@.len(),
                all == views(pieces@),
                self@ == put_pieces(start, all.take(i as int), style),
            decreases pieces.len() - i,
        {
            proof {
                assert(all.take(i + 1).drop_last() == all.take(i as int));
                assert(all.take(i + 1).last() == pieces@[i as int]@);
            }
            if i > 0 {
                self.flush();
            }
            if !pieces[i].as_str().is_empty() {
                self.put(pieces[i].as_str(), style);
            }
            i += 1;
        }
        proof {
            assert(all.take(all.len() as int) == all);
        }
    }

    fn pop_inline(&mut self)
        ensures
            final(self)@ == inline_closed(old(self)@),
    {
        let _ = self.inline.pop();
    }

    fn open(&mut self, tag: &MdTag, p: Palette)
        ensures
            final(self)@ == opened(old(self)@, tag@, p),
    {
        match tag {
            MdTag::Heading(level) => {
                self.flush();
                let n = self.lines.len();
                proof {
                    assert(self@.lines.len() == n);
                    if n > 0 {
                        assert(self@.lines.last() == line_view(self.lines@[n - 1]@));
                    }
                }
                if n > 0 && self.lines[n - 1].len() > 0 {
                    self.blank();
                }
                self.put("▌ ", heading_style(*level, p));
            },
            MdTag::Paragraph => {
                self.flush();
            },
            MdTag::BlockQuote => {
                self.flush();
                self.put("╎ ", italic(Color::Muted));
            },
            MdTag::Fence(lang) => {
                self.flush();
                self.in_code = true;
                if lang.as_str().is_empty() {
                    self.put("━━", section());
                } else {
                    let mut rule = "━━ ".to_owned();
                    rule.append(lang.as_str());
                    rule.append(" ");
                    self.put(rule.as_str(), section());
                    self.flush();
                }
            },
            MdTag::Indented => {
                self.flush();
                self.in_code = true;
            },
            MdTag::List(first) => {
                self.flush();
                self.ordered = Some(first.is_some());
                self.counter = match first {
                    Some(n) => *n,
                    None => 1,
                };
                self.bullet = 0;
            },
            MdTag::Item => {
                self.flush();
                match self.ordered {
                    Some(true) => {
                        let mut marker = String::new();
                        push_decimal(&mut marker, self.counter);
                        marker.append(". ");
                        proof {
                            assert(marker@ =~= decimal(self.counter as nat) + ". "@);
                        }
                        self.put(marker.as_str(), fg(Color::Muted));
                        if self.counter < u64::MAX {
                            self.counter = self.counter + 1;
                        }
                    },
                    Some(false) => {
                        let n: u8 = self.bullet % 3;
                        if n == 0 {
                            self.put("› ", fg(Color::Teal));
                        } else if n == 1 {
                            self.put("· ", fg(Color::Teal));
                        } else {
                            self.put("∘ ", fg(Color::Teal));
                        }
                        self.bullet = if n == 2 {
                            0
                        } else {
                            n + 1
                        };
                    },
                    None => {},
                }
            },
            MdTag::Strong => {
                self.inline.push(bold(p.strong));
            },
            MdTag::Emphasis => {
                self.inline.push(italic(Color::Fg));
            },
            MdTag::Strikethrough => {
                self.inline.push(Style { crossed_out: true, ..fg(Color::Muted) });
            },
            MdTag::Link => {
                self.inline.push(Style { underlined: true, ..section() });
            },
            MdTag::Other => {},
        }
    }

    fn close(&mut self, end: MdEnd)
        ensures
            final(self)@ == closed(old(self)@, end),
    {
        match end {
            MdEnd::Heading => {
                self.flush();
                self.blank();
            },
            MdEnd::Paragraph | MdEnd::BlockQuote | MdEnd::Item => {
                self.flush();
            },
            MdEnd::CodeBlock => {
                self.flush();
                self.in_code = false;
                self.blank();
            },
            MdEnd::List => {
                self.flush();
                self.ordered = None;
            },
            MdEnd::Strong | MdEnd::Emphasis | MdEnd::Strikethrough | MdEnd::Link => {
                self.pop_inline();
            },
            MdEnd::Other => {},
        }
    }

    fn step(&mut self, event: &MdEvent, p: Palette)
        ensures
            final(self)@ == stepped(old(self)@, event@, p),
    {
        match event {
            MdEvent::Start(tag) => {
                self.open(tag, p);
            },
            MdEvent::End(end) => {
                self.close(*end);
            },
            MdEvent::Code(text) => {
                self.push_with_newlines(text.as_str(), code_block_style());
            },
            MdEvent::Text(text) => {
                let style = if self.in_code {
                    code_block_style()
                } else {
                    match compose_inline_style(&self.inline) {
                        Some(s) => s,
                        None => plain(),
                    }
                };
                self.push_with_newlines(text.as_str(), style);
            },
            MdEvent::SoftBreak => {
                self.put(" ", plain());
            },
            MdEvent::HardBreak => {
                self.flush();
            },
            MdEvent::Rule => {
                self.flush();
                push_line(&mut self.lines, line_of("───", section()));
            },
            MdEvent::Other => {},
        }
    }
}

/// The style of a heading's accent bar.
fn heading_style(level: u8, p: Palette) -> (s: Style)
    ensures
        s == spec_heading_style(level, p),
{
    if level == 1 {
        bold(p.h1)
    } else if level == 2 || level == 3 {
        bold(p.h2_h3)
    } else {
        bold(p.h4_h6)
    }
}

/// Code, inline or in a block.
fn code_block_style() -> (s: Style)
    ensures
        s == code_style(),
{
    Style { bg: Some(Color::BgOverlay), ..fg(Color::Accent2) }
}

/// The style of body text under the open inline styles; `None` where those
/// change nothing.
pub fn compose_inline_style(stack: &Vec<Style>) -> (r: Option<Style>)
    ensures
        r == (if body_style(stack@) == spec_plain() {
            None
        } else {
            Some(body_style(stack@))
        }),
{
    if stack.len() == 0 {
        return Some(italic(Color::Fg));
    }
    let mut all = plain();
    let mut i: usize = 0;
    proof {
        assert(stack@.take(0) == Seq::<Style>::empty());
    }
    while i < stack.len()
        invariant
            i <= stack@.len(),
            all == laid_over(stack@.take(i as int)),
        decreases stack.len() - i,
    {
        let top = stack[i];
        proof {
            assert(stack@.take(i + 1).drop_last() == stack@.take(i as int));
            assert(stack@.take(i + 1).last() == top);
        }
        all = Style {
            fg: if top.fg.is_some() {
                top.fg
            } else {
                all.fg
            },
            bg: None,
            bold: all.bold || top.bold,
            italic: all.italic || top.italic,
            underlined: all.underlined || top.underlined,
            crossed_out: all.crossed_out || top.crossed_out,
        };
        i += 1;
    }
    proof {
        assert(stack@.take(stack@.len() as int) == stack@);
    }
    if all.fg.is_none() && !all.bold && !all.italic && !all.underlined && !all.crossed_out {
        proof {
            lemma_laid_over_bg(stack@);
        }
        None
    } else {
        Some(all)
    }
}

proof fn lemma_laid_over_bg(stack: Seq<Style>)
    ensures
        laid_over(stack).bg is None,
{
}

/// The lines that a document's events are shown as.
pub fn render_events(events: &Vec<MdEvent>, p: Palette) -> (r: Vec<Vec<Span>>)
    ensures
        lines_view(r@) == rendered(events_view(events@), p),
{
    let ghost all = events_view(events@);
    let mut w = Walk {
        lines: Vec::new(),
        current: Vec::new(),
        inline: Vec::new(),
        ordered: None,
        counter: 1,
        bullet: 0,
        in_code: false,
    };
    proof {
        assert(all.take(0) == Seq::<EventView>::empty());
        assert(w@.lines =~= Seq::<Seq<SpanView>>::empty());
        assert(w@.current =~= Seq::<SpanView>::empty());
        assert(w@ == walk_start());
    }
    let mut i: usize = 0;
    while i < events.len()
        invariant
            i <= events@.len(),
            all == events_view(events@),
            w@ == walked(all.take(i as int), p),
        decreases events.len() - i,
    {
        proof {
            assert(all.take(i + 1).drop_last() == all.take(i as int));
            assert(all.take(i + 1).last() == events@[i as int]@);
        }
        w.step(&events[i], p);
        i += 1;
    }
    proof {
        assert(all.take(all.len() as int) == all);
    }
    w.flush();
    let mut lines = w.lines;
    loop
        invariant
            without_trailing_blanks(lines_view(lines@)) == rendered(all, p),
        ensures
            lines_view(lines@) == rendered(all, p),
        decreases lines.len(),
    {
        let n = lines.len();
        if n == 0 {
            break;
        }
        proof {
            assert(lines_view(lines@).last() == line_view(lines@[n - 1]@));
        }
        if lines[n - 1].len() > 0 {
            break;
        }
        proof {
            assert(lines_view(lines@.drop_last()) =~= lines_view(lines@).drop_last());
        }
        let _ = lines.pop();
    }
    lines
}

/// Markdown as styled lines, with blue headings and blue bold text.
pub fn render(input: &str) -> (r: Vec<Vec<Span>>)
    ensures
        lines_view(r@) == rendered(md_events(input@), spec_blue_palette()),
{
    let events = read_events(input);
    render_events(
        &events,
        Palette { strong: Color::Blue, h1: Color::Blue, h2_h3: Color::Blue, h4_h6: Color::Blue },
    )
}

/// Markdown as styled lines, as the chat panel shows an answer.
pub fn render_markdown(input: &str) -> (r: Vec<Vec<Span>>)
    ensures
        lines_view(r@) == rendered(md_events(input@), spec_graded_palette()),
{
    let events = read_events(input);
    render_events(
        &events,
        Palette {
            strong: Color::Emphasis,
            h1: Color::Teal,
            h2_h3: Color::Emphasis,
            h4_h6: Color::Fg,
        },
    )
}

// --------------------------------------------------------------------- laws

/// A document never ends in a blank line.
pub proof fn law_no_blank_line_at_end(events: Seq<EventView>, p: Palette)
    ensures
        rendered(events, p).len() > 0 ==> rendered(events, p).last().len() > 0,
{
    lemma_no_blank_at_end(flushed(walked(events, p)).lines);
}

proof fn lemma_no_blank_at_end(lines: Seq<Seq<SpanView>>)
    ensures
        without_trailing_blanks(lines).len() > 0 ==> without_trailing_blanks(lines).last().len() > 0,
    decreases lines.len(),
{
    if lines.len() > 0 && lines.last().len() == 0 {
        lemma_no_blank_at_end(lines.drop_last());
    }
}

/// The texts of a line.
pub open spec fn line_texts(line: Seq<SpanView>) -> Seq<Seq<char>> {
    line.map_values(|s: SpanView| s.text)
}

/// The texts of the lines.
pub open spec fn texts(lines: Seq<Seq<SpanView>>) -> Seq<Seq<Seq<char>>> {
    lines.map_values(|l: Seq<SpanView>| line_texts(l))
}

/// Whether two walks differ in colours alone.
spec fn alike(a: WalkView, b: WalkView) -> bool {
    &&& texts(a.lines) == texts(b.lines)
    &&& line_texts(a.current) == line_texts(b.current)
    &&& a.inline.len() == b.inline.len()
    &&& a.ordered == b.ordered
    &&& a.counter == b.counter
    &&& a.bullet == b.bullet
    &&& a.in_code == b.in_code
}

proof fn lemma_alike_flushed(a: WalkView, b: WalkView)
    requires
        alike(a, b),
    ensures
        alike(flushed(a), flushed(b)),
{
    assert(line_texts(a.current).len() == a.current.len());
    assert(line_texts(b.current).len() == b.current.len());
    if a.current.len() > 0 {
        assert(texts(a.lines.push(a.current)) =~= texts(a.lines).push(line_texts(a.current)));
        assert(texts(b.lines.push(b.current)) =~= texts(b.lines).push(line_texts(b.current)));
    }
}

proof fn lemma_alike_put(a: WalkView, b: WalkView, text: Seq<char>, s: Style, t: Style)
    requires
        alike(a, b),
    ensures
        alike(put(a, text, s), put(b, text, t)),
{
    assert(line_texts(put(a, text, s).current) =~= line_texts(a.current).push(text));
    assert(line_texts(put(b, text, t).current) =~= line_texts(b.current).push(text));
}

proof fn lemma_alike_line(a: WalkView, b: WalkView, line: Seq<SpanView>)
    requires
        alike(a, b),
    ensures
        alike(
            WalkView { lines: a.lines.push(line), ..a },
            WalkView { lines: b.lines.push(line), ..b },
        ),
{
    assert(texts(a.lines.push(line)) =~= texts(a.lines).push(line_texts(line)));
    assert(texts(b.lines.push(line)) =~= texts(b.lines).push(line_texts(line)));
}

proof fn lemma_alike_pieces(a: WalkView, b: WalkView, pieces: Seq<Seq<char>>, s: Style, t: Style)
    requires
        alike(a, b),
    ensures
        alike(put_pieces(a, pieces, s), put_pieces(b, pieces, t)),
        put_pieces(a, pieces, s).inline == a.inline,
    decreases pieces.len(),
{
    if pieces.len() > 0 {
        lemma_alike_pieces(a, b, pieces.drop_last(), s, t);
        let x = put_pieces(a, pieces.drop_last(), s);
        let y = put_pieces(b, pieces.drop_last(), t);
        lemma_alike_flushed(x, y);
        lemma_alike_put(x, y, pieces.last(), s, t);
        lemma_alike_put(flushed(x), flushed(y), pieces.last(), s, t);
    }
}

proof fn lemma_alike_opened(a: WalkView, b: WalkView, tag: TagView, p: Palette, q: Palette)
    requires
        alike(a, b),
    ensures
        alike(opened(a, tag, p), opened(b, tag, q)),
{
    lemma_alike_flushed(a, b);
    let x = flushed(a);
    let y = flushed(b);
    match tag {
        TagView::Heading(level) => {
            assert(texts(x.lines).len() == x.lines.len());
            assert(texts(y.lines).len() == y.lines.len());
            if x.lines.len() > 0 {
                assert(texts(x.lines).last() == line_texts(x.lines.last()));
                assert(texts(y.lines).last() == line_texts(y.lines.last()));
                assert(line_texts(x.lines.last()).len() == x.lines.last().len());
                assert(line_texts(y.lines.last()).len() == y.lines.last().len());
            }
            lemma_alike_line(x, y, Seq::empty());
            lemma_alike_put(
                x,
                y,
                "▌ "@,
                spec_heading_style(level, p),
                spec_heading_style(level, q),
            );
            lemma_alike_put(
                blank(x),
                blank(y),
                "▌ "@,
                spec_heading_style(level, p),
                spec_heading_style(level, q),
            );
        },
        TagView::BlockQuote => {
            lemma_alike_put(x, y, "╎ "@, spec_italic(Color::Muted), spec_italic(Color::Muted));
        },
        TagView::Fence(lang) => {
            let f = WalkView { in_code: true, ..x };
            let g = WalkView { in_code: true, ..y };
            let s = spec_fg(Color::Section);
            lemma_alike_put(f, g, "━━"@, s, s);
            lemma_alike_put(f, g, "━━ "@ + lang + " "@, s, s);
            lemma_alike_flushed(
                put(f, "━━ "@ + lang + " "@, s),
                put(g, "━━ "@ + lang + " "@, s),
            );
        },
        TagView::Item => {
            lemma_alike_put(
                x,
                y,
                decimal(x.counter as nat) + ". "@,
                spec_fg(Color::Muted),
                spec_fg(Color::Muted),
            );
            lemma_alike_put(
                x,
                y,
                bullet_glyph(x.bullet),
                spec_fg(Color::Teal),
                spec_fg(Color::Teal),
            );
        },
        _ => {},
    }
}

proof fn lemma_alike_stepped(a: WalkView, b: WalkView, event: EventView, p: Palette, q: Palette)
    requires
        alike(a, b),
    ensures
        alike(stepped(a, event, p), stepped(b, event, q)),
{
    lemma_alike_flushed(a, b);
    match event {
        EventView::Start(tag) => lemma_alike_opened(a, b, tag, p, q),
        EventView::End(_) => {
            lemma_alike_line(flushed(a), flushed(b), Seq::empty());
            lemma_alike_line(
                WalkView { in_code: false, ..flushed(a) },
                WalkView { in_code: false, ..flushed(b) },
                Seq::empty(),
            );
        },
        EventView::Code(text) => lemma_alike_pieces(
            a,
            b,
            split_on(text, '\n'),
            code_style(),
            code_style(),
        ),
        EventView::Text(text) => lemma_alike_pieces(
            a,
            b,
            split_on(text, '\n'),
            if a.in_code {
                code_style()
            } else {
                body_style(a.inline)
            },
            if b.in_code {
                code_style()
            } else {
                body_style(b.inline)
            },
        ),
        EventView::SoftBreak => lemma_alike_put(a, b, " "@, spec_plain(), spec_plain()),
        EventView::Rule => lemma_alike_line(
            flushed(a),
            flushed(b),
            seq![run("───"@, spec_fg(Color::Section))],
        ),
        _ => {},
    }
}

proof fn lemma_alike_walked(events: Seq<EventView>, p: Palette, q: Palette)
    ensures
        alike(walked(events, p), walked(events, q)),
    decreases events.len(),
{
    if events.len() > 0 {
        lemma_alike_walked(events.drop_last(), p, q);
        lemma_alike_stepped(
            walked(events.drop_last(), p),
            walked(events.drop_last(), q),
            events.last(),
            p,
            q,
        );
    }
}

proof fn lemma_alike_trimmed(a: Seq<Seq<SpanView>>, b: Seq<Seq<SpanView>>)
    requires
        texts(a) == texts(b),
    ensures
        texts(without_trailing_blanks(a)) == texts(without_trailing_blanks(b)),
    decreases a.len(),
{
    assert(texts(a).len() == a.len() && texts(b).len() == b.len());
    if a.len() > 0 {
        assert(texts(a).last() == line_texts(a.last()));
        assert(texts(b).last() == line_texts(b.last()));
        assert(line_texts(a.last()).len() == a.last().len());
        assert(line_texts(b.last()).len() == b.last().len());
        if a.last().len() == 0 {
            assert(texts(a.drop_last()) =~= texts(a).drop_last());
            assert(texts(b.drop_last()) =~= texts(b).drop_last());
            lemma_alike_trimmed(a.drop_last(), b.drop_last());
        }
    }
}

/// The palette changes colours alone: the texts and the lines are the same.
pub proof fn law_palette_keeps_text(events: Seq<EventView>, p: Palette, q: Palette)
    ensures
        texts(rendered(events, p)) == texts(rendered(events, q)),
{
    lemma_alike_walked(events, p, q);
    lemma_alike_flushed(walked(events, p), walked(events, q));
    lemma_alike_trimmed(flushed(walked(events, p)).lines, flushed(walked(events, q)).lines);
}

proof fn lemma_pieces_keep_state(w: WalkView, pieces: Seq<Seq<char>>, style: Style)
    ensures
        put_pieces(w, pieces, style).inline == w.inline,
        put_pieces(w, pieces, style).ordered == w.ordered,
        put_pieces(w, pieces, style).counter == w.counter,
        put_pieces(w, pieces, style).bullet == w.bullet,
        put_pieces(w, pieces, style).in_code == w.in_code,
    decreases pieces.len(),
{
    if pieces.len() > 0 {
        lemma_pieces_keep_state(w, pieces.drop_last(), style);
    }
}

proof fn lemma_pieces_in_turn(w: WalkView, a: Seq<Seq<char>>, b: Seq<Seq<char>>, style: Style)
    requires
        a.len() > 0,
        b.len() > 0,
    ensures
        put_pieces(w, a + b, style) == put_pieces(flushed(put_pieces(w, a, style)), b, style),
    decreases b.len(),
{
    assert((a + b).drop_last() =~= a + b.drop_last());
    if b.len() == 1 {
        assert(a + b.drop_last() =~= a);
        let f = flushed(put_pieces(w, a, style));
        assert(put_pieces(f, b.drop_last(), style) == f);
    } else {
        lemma_pieces_in_turn(w, a, b.drop_last(), style);
    }
}

/// A line of text goes behind what stands on the line under way; text with a line break in
/// it is shown as the text before it, the break, and the text behind it would be.
pub proof fn law_text_is_shown_line_by_line(w: WalkView, a: Seq<char>, b: Seq<char>, p: Palette)
    ensures
        stepped(w, EventView::Text(a + seq!['\n'] + b), p) == stepped(
            stepped(stepped(w, EventView::Text(a), p), EventView::HardBreak, p),
            EventView::Text(b),
            p,
        ),
        a.len() > 0 && (forall|i: int| 0 <= i < a.len() ==> a[i] != '\n') ==> {
            let t = stepped(w, EventView::Text(a), p);
            &&& t.current.len() == w.current.len() + 1
            &&& t.current.drop_last() == w.current
            &&& t.current.last().text == a
            &&& t.lines == w.lines
        },
        stepped(w, EventView::Text(Seq::empty()), p) == w,
{
    crate::text::law_splitting_goes_on_both_sides(a, '\n', b);
    crate::text::law_split_pieces_join(a, '\n');
    crate::text::law_split_pieces_join(b, '\n');
    let style = if w.in_code {
        code_style()
    } else {
        body_style(w.inline)
    };
    lemma_pieces_keep_state(w, split_on(a, '\n'), style);
    lemma_pieces_in_turn(w, split_on(a, '\n'), split_on(b, '\n'), style);
    if a.len() > 0 && (forall|i: int| 0 <= i < a.len() ==> a[i] != '\n') {
        let one = split_on(a, '\n');
        assert(one.drop_last() =~= Seq::<Seq<char>>::empty());
        assert(put_pieces(w, one.drop_last(), style) == w);
        assert(w.current.push(run(a, style)).drop_last() =~= w.current);
    }
    let none = split_on(Seq::empty(), '\n');
    assert(none.drop_last() =~= Seq::<Seq<char>>::empty());
    assert(put_pieces(w, none.drop_last(), style) == w);
}

/// Code is shown in its own style whatever stands around it; text inside a block of code
/// too, and text with no mark around it in that of plain prose.
pub proof fn law_how_text_looks(w: WalkView, a: Seq<char>, p: Palette)
    requires
        a.len() > 0,
        forall|i: int| 0 <= i < a.len() ==> a[i] != '\n',
    ensures
        ({
            let text = stepped(w, EventView::Text(a), p).current.last().style;
            let code = stepped(w, EventView::Code(a), p).current.last().style;
            &&& code.fg == Some(Color::Accent2) && code.bg == Some(Color::BgOverlay)
            &&& w.in_code ==> text == code
            &&& !w.in_code && w.inline.len() == 0 ==> text.fg == Some(Color::Fg) && text.italic
                && !text.bold
            &&& !w.in_code && w.inline.len() > 0 ==> text == laid_over(w.inline)
        }),
{
    crate::text::law_splitting_goes_on_both_sides(a, '\n', Seq::empty());
    let one = split_on(a, '\n');
    assert(one.drop_last() =~= Seq::<Seq<char>>::empty());
    assert(one.len() == 1);
    assert(put_pieces(w, one.drop_last(), code_style()) == w);
    assert(put_pieces(w, one.drop_last(), body_style(w.inline)) == w);
}

/// Of styles laid one over the other the topmost colour is seen, and every mark that any of
/// them sets.
pub proof fn law_styles_lie_over_each_other(stack: Seq<Style>, top: Style)
    ensures
        laid_over(Seq::empty()) == spec_plain(),
        laid_over(stack.push(top)).fg == (if top.fg is Some {
            top.fg
        } else {
            laid_over(stack).fg
        }),
        laid_over(stack.push(top)).bold <==> laid_over(stack).bold || top.bold,
        laid_over(stack.push(top)).italic <==> laid_over(stack).italic || top.italic,
        laid_over(stack.push(top)).underlined <==> laid_over(stack).underlined || top.underlined,
        laid_over(stack.push(top)).crossed_out <==> laid_over(stack).crossed_out
            || top.crossed_out,
        laid_over(stack.push(top)).bg is None,
{
    assert(stack.push(top).drop_last() =~= stack);
}

/// A mark inside a line holds until its end and leaves nothing behind; what it sets is bold,
/// italic, a line through or a line under the text.
pub proof fn law_marks_end_where_they_end(w: WalkView, p: Palette)
    ensures
        ({
            let strong = opened(w, TagView::Strong, p);
            let emphasis = opened(w, TagView::Emphasis, p);
            let crossed = opened(w, TagView::Strikethrough, p);
            let link = opened(w, TagView::Link, p);
            &&& closed(strong, MdEnd::Strong) == w
            &&& closed(emphasis, MdEnd::Emphasis) == w
            &&& closed(crossed, MdEnd::Strikethrough) == w
            &&& closed(link, MdEnd::Link) == w
            &&& strong.inline.last().bold && strong.inline.last().fg == Some(p.strong)
                && !strong.inline.last().italic
            &&& emphasis.inline.last().italic && !emphasis.inline.last().bold
            &&& crossed.inline.last().crossed_out && !crossed.inline.last().underlined
            &&& link.inline.last().underlined && !link.inline.last().crossed_out
            &&& strong.lines == w.lines && strong.current == w.current
            &&& link.lines == w.lines && link.current == w.current
        }),
{
    let strong = opened(w, TagView::Strong, p);
    let emphasis = opened(w, TagView::Emphasis, p);
    let crossed = opened(w, TagView::Strikethrough, p);
    let link = opened(w, TagView::Link, p);
    assert(strong.inline.drop_last() =~= w.inline);
    assert(emphasis.inline.drop_last() =~= w.inline);
    assert(crossed.inline.drop_last() =~= w.inline);
    assert(link.inline.drop_last() =~= w.inline);
}

/// A heading stands on a line of its own behind its bar, in bold, with a blank line behind it
/// and one before it where something stands above.
pub proof fn law_headings_stand_apart(w: WalkView, level: u8, a: Seq<char>, p: Palette)
    requires
        a.len() > 0,
        forall|i: int| 0 <= i < a.len() ==> a[i] != '\n',
    ensures
        ({
            let h = stepped(
                stepped(
                    stepped(w, EventView::Start(TagView::Heading(level)), p),
                    EventView::Text(a),
                    p,
                ),
                EventView::End(MdEnd::Heading),
                p,
            );
            let above = flushed(w).lines;
            let n = h.lines.len() as int;
            &&& h.current.len() == 0
            &&& n >= 2
            &&& h.lines[n - 1].len() == 0
            &&& h.lines[n - 2].len() == 2
            &&& h.lines[n - 2][0].text == "▌ "@
            &&& h.lines[n - 2][0].style.bold
            &&& h.lines[n - 2][0].style.fg == Some(
                if level == 1 {
                    p.h1
                } else if level == 2 || level == 3 {
                    p.h2_h3
                } else {
                    p.h4_h6
                },
            )
            &&& h.lines[n - 2][1].text == a
            &&& n == above.len() + (if above.len() > 0 && above.last().len() > 0 {
                3int
            } else {
                2
            })
            &&& above.len() > 0 && above.last().len() > 0 ==> h.lines[n - 3].len() == 0
            &&& h.lines.take(above.len() as int) == above
        }),
{
    let o = opened(w, TagView::Heading(level), p);
    law_text_is_shown_line_by_line(o, a, Seq::empty(), p);
    let above = flushed(w).lines;
    assert(o.current.len() == 1);
    let t = stepped(o, EventView::Text(a), p);
    assert(t.current =~= o.current.push(t.current.last()));
    let h = stepped(t, EventView::End(MdEnd::Heading), p);
    assert(h.lines.take(above.len() as int) =~= above);
}

/// A paragraph, a quotation and an item each begin on a new line, with nothing, a broken bar,
/// or a bullet or number before the text.
pub proof fn law_blocks_begin_on_a_new_line(w: WalkView, p: Palette)
    ensures
        ({
            let above = flushed(w).lines;
            let para = opened(w, TagView::Paragraph, p);
            let quote = opened(w, TagView::BlockQuote, p);
            let item = opened(w, TagView::Item, p);
            &&& w.current.len() > 0 ==> above == w.lines.push(w.current)
            &&& w.current.len() == 0 ==> above == w.lines
            &&& para.lines == above && para.current.len() == 0
            &&& quote.lines == above && quote.current.len() == 1 && quote.current[0].text == "╎ "@
            &&& item.lines == above
            &&& w.ordered == Some(true) ==> item.current.len() == 1 && item.current[0].text
                == decimal(w.counter as nat) + ". "@
            &&& w.ordered == Some(true) && w.counter < u64::MAX ==> item.counter == w.counter + 1
            &&& w.ordered == Some(false) ==> item.current.len() == 1 && item.current[0].text == (
            if w.bullet % 3 == 0 {
                "› "@
            } else if w.bullet % 3 == 1 {
                "· "@
            } else {
                "∘ "@
            }) && item.bullet == (w.bullet + 1) % 3
            &&& w.ordered is None ==> item.current.len() == 0
            &&& closed(para, MdEnd::Paragraph) == para
        }),
{
}

/// A list counts from the number it is given, or shows bullets, until it ends.
pub proof fn law_lists_count_from_their_number(w: WalkView, n: u64, p: Palette)
    ensures
        opened(w, TagView::List(Some(n)), p).ordered == Some(true),
        opened(w, TagView::List(Some(n)), p).counter == n,
        opened(w, TagView::List(None), p).ordered == Some(false),
        opened(w, TagView::List(None), p).bullet == 0,
        closed(w, MdEnd::List).ordered is None,
        closed(w, MdEnd::List).lines == flushed(w).lines,
        closed(w, MdEnd::Item).ordered == w.ordered,
        closed(w, MdEnd::Item).counter == w.counter,
{
}

/// A block of code holds until its end, which leaves a blank line; a fence with a language
/// shows it on a rule of its own.
pub proof fn law_code_blocks_are_set_apart(w: WalkView, lang: Seq<char>, p: Palette)
    ensures
        ({
            let above = flushed(w).lines;
            let fence = opened(w, TagView::Fence(lang), p);
            let bare = opened(w, TagView::Indented, p);
            &&& fence.in_code && bare.in_code
            &&& lang.len() > 0 ==> fence.current.len() == 0 && fence.lines.len() == above.len() + 1
                && fence.lines.drop_last() == above && fence.lines.last().len() == 1
                && fence.lines.last()[0].text == "━━ "@ + lang + " "@
            &&& lang.len() == 0 ==> fence.lines == above && fence.current.len() == 1
                && fence.current[0].text == "━━"@
            &&& bare.lines == above && bare.current.len() == 0
            &&& !closed(w, MdEnd::CodeBlock).in_code
            &&& closed(w, MdEnd::CodeBlock).lines == above.push(Seq::empty())
        }),
{
    let fence = opened(w, TagView::Fence(lang), p);
    if lang.len() > 0 {
        assert(fence.lines.drop_last() =~= flushed(w).lines);
    }
}

/// A soft break is a blank, a hard break ends the line, a rule is a line of its own; whatever
/// is not known changes nothing.
pub proof fn law_what_breaks_do(w: WalkView, p: Palette)
    ensures
        ({
            let soft = stepped(w, EventView::SoftBreak, p);
            let hard = stepped(w, EventView::HardBreak, p);
            let rule = stepped(w, EventView::Rule, p);
            &&& soft.lines == w.lines && soft.current.len() == w.current.len() + 1
                && soft.current.last().text == " "@
            &&& hard.current.len() == 0
            &&& hard.lines == (if w.current.len() > 0 {
                w.lines.push(w.current)
            } else {
                w.lines
            })
            &&& rule.current.len() == 0 && rule.lines.len() == hard.lines.len() + 1
                && rule.lines.last()[0].text == "───"@
            &&& stepped(w, EventView::Other, p) == w
            &&& stepped(w, EventView::Start(TagView::Other), p) == w
            &&& stepped(w, EventView::End(MdEnd::Other), p) == w
        }),
{
}

/// A document is walked event by event from an empty page.
pub proof fn law_documents_are_walked_in_order(events: Seq<EventView>, e: EventView, p: Palette)
    ensures
        walked(events.push(e), p) == stepped(walked(events, p), e, p),
        walked(Seq::empty(), p).lines.len() == 0,
        walked(Seq::empty(), p).current.len() == 0,
        walked(Seq::empty(), p).inline.len() == 0,
        walked(Seq::empty(), p).ordered is None,
        !walked(Seq::empty(), p).in_code,
{
    assert(events.push(e).drop_last() =~= events);
}

/// Nothing but blank lines at the end is left out of what was walked.
pub proof fn law_only_blank_lines_are_left_out(lines: Seq<Seq<SpanView>>)
    ensures
        ({
            let r = without_trailing_blanks(lines);
            &&& r.len() <= lines.len()
            &&& lines.take(r.len() as int) == r
            &&& forall|i: int| r.len() <= i < lines.len() ==> (#[trigger] lines[i]).len() == 0
        }),
    decreases lines.len(),
{
    if lines.len() > 0 && lines.last().len() == 0 {
        let head = lines.drop_last();
        law_only_blank_lines_are_left_out(head);
        let r = without_trailing_blanks(head);
        assert(lines.take(r.len() as int) =~= head.take(r.len() as int));
        assert forall|i: int| r.len() <= i < lines.len() implies (#[trigger] lines[i]).len()
            == 0 by {
            if i < head.len() {
                assert(head[i].len() == 0);
            }
        }
    } else {
        assert(lines.take(lines.len() as int) =~= lines);
    }
}

/// The words of a document go over as they are, one event for each.
pub proof fn law_words_go_over_as_they_are(nodes: Seq<NodeView>, i: int)
    requires
        0 <= i < nodes.len(),
    ensures
        events_of(nodes).len() == nodes.len(),
        nodes[i] matches NodeView::Text(s) ==> events_of(nodes)[i] == EventView::Text(s),
        nodes[i] matches NodeView::Code(s) ==> events_of(nodes)[i] == EventView::Code(s),
        nodes[i] matches NodeView::Fence(s) ==> events_of(nodes)[i] == EventView::Start(
            TagView::Fence(s),
        ),
        nodes[i] matches NodeView::List(n) ==> events_of(nodes)[i] == EventView::Start(
            TagView::List(n),
        ),
        nodes[i] is SoftBreak ==> events_of(nodes)[i] is SoftBreak,
        nodes[i] is HardBreak ==> events_of(nodes)[i] is HardBreak,
        nodes[i] is Rule ==> events_of(nodes)[i] is Rule,
{
}

/// An element is what its name says, at its start as at its end; a heading has the level in
/// its name.
pub proof fn law_elements_go_by_their_names(name: Seq<char>)
    ensures
        event_of(NodeView::Start(name)) == EventView::Start(start_named(name)),
        event_of(NodeView::End(name)) == EventView::End(end_named(name)),
        start_named(name) is Paragraph <==> name == "Paragraph"@,
        end_named(name) is Paragraph <==> name == "Paragraph"@,
        start_named(name) == TagView::Heading(1) <==> name == "Heading(H1)"@,
        start_named(name) == TagView::Heading(2) <==> name == "Heading(H2)"@,
        start_named(name) == TagView::Heading(3) <==> name == "Heading(H3)"@,
        start_named(name) == TagView::Heading(4) <==> name == "Heading(H4)"@,
        start_named(name) == TagView::Heading(5) <==> name == "Heading(H5)"@,
        start_named(name) == TagView::Heading(6) <==> name == "Heading(H6)"@,
        start_named(name) is Heading <==> end_named(name) is Heading,
        start_named(name) is BlockQuote <==> begins(name, "BlockQuote("@),
        end_named(name) is BlockQuote <==> begins(name, "BlockQuote("@),
        start_named(name) is Indented <==> name == "CodeBlock"@,
        end_named(name) is CodeBlock <==> name == "CodeBlock"@,
        end_named(name) is List <==> name == "List(true)"@ || name == "List(false)"@,
        start_named(name) is Item <==> name == "Item"@,
        end_named(name) is Item <==> name == "Item"@,
        start_named(name) is Emphasis <==> name == "Emphasis"@,
        end_named(name) is Emphasis <==> name == "Emphasis"@,
        start_named(name) is Strong <==> name == "Strong"@,
        end_named(name) is Strong <==> name == "Strong"@,
        start_named(name) is Strikethrough <==> name == "Strikethrough"@,
        end_named(name) is Strikethrough <==> name == "Strikethrough"@,
        start_named(name) is Link <==> name == "Link"@,
        end_named(name) is Link <==> name == "Link"@,
{
    reveal_strlit("Paragraph");
    reveal_strlit("Heading(H1)");
    reveal_strlit("Heading(H2)");
    reveal_strlit("Heading(H3)");
    reveal_strlit("Heading(H4)");
    reveal_strlit("Heading(H5)");
    reveal_strlit("Heading(H6)");
    reveal_strlit("BlockQuote(");
    reveal_strlit("CodeBlock");
    reveal_strlit("List(true)");
    reveal_strlit("List(false)");
    reveal_strlit("Item");
    reveal_strlit("Emphasis");
    reveal_strlit("Strong");
    reveal_strlit("Strikethrough");
    reveal_strlit("Link");
    assert("Paragraph"@[0] == 'P' && "CodeBlock"@[0] == 'C' && "Item"@[0] == 'I' && "Emphasis"@[0]
        == 'E' && "Strong"@[0] == 'S' && "Strikethrough"@[0] == 'S' && "Link"@[0] == 'L'
        && "BlockQuote("@[0] == 'B' && "List(true)"@[0] == 'L' && "List(false)"@[0] == 'L');
    assert("Heading(H1)"@[9] == '1' && "Heading(H2)"@[9] == '2' && "Heading(H3)"@[9] == '3'
        && "Heading(H4)"@[9] == '4' && "Heading(H5)"@[9] == '5' && "Heading(H6)"@[9] == '6');
    assert("Heading(H1)"@[0] == 'H' && "Heading(H2)"@[0] == 'H' && "Heading(H3)"@[0] == 'H'
        && "Heading(H4)"@[0] == 'H' && "Heading(H5)"@[0] == 'H' && "Heading(H6)"@[0] == 'H');
    assert("Strong"@.len() == 6 && "Strikethrough"@.len() == 13 && "Link"@.len() == 4
        && "List(true)"@.len() == 10 && "List(false)"@.len() == 11);
    if begins(name, "BlockQuote("@) {
        assert(name[0] == 'B') by {
            assert(name.take(11)[0] == name[0]);
        }
    }
}

} // verus!
