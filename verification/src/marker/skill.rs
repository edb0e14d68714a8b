//! Reads the markers out of a model's answer.
//!
//! Models are careless with the syntax, so the reader is lenient: the prefix may
//! be in upper or lower case, blanks may stand before the payload, up to ten closing
//! brackets are consumed, and missing ones are forgiven as long as the payload's
//! braces balance.

use vstd::prelude::*;

use super::scan::{
    closing_brackets, count_braces, count_closing, first_char, first_match, folded,
    lemma_closing_brackets_bounds, lemma_count_braces_bounds, lemma_first_char_bounds,
    lemma_first_match, lemma_prefixes, lower_prefix, pass_blanks, scan_braces, search, search_char, skip_blanks, upper_prefix,
};
use crate::text::{
    ascii_lower, byte_len, bytes_to, chars_of, matches_at, slice_of, str_eq, trim, trimmed,
};

verus! {

/// A memory operation that a model asked for.
#[derive(Debug)]
pub struct Marker {
    /// The name of the tool, as the model wrote it.
    pub op: String,
    /// The arguments, as JSON text.
    pub payload: String,
}

/// What a [`Marker`] holds.
pub struct MarkerView {
    pub op: Seq<char>,
    pub payload: Seq<char>,
}

impl View for Marker {
    type V = MarkerView;

    open spec fn view(&self) -> MarkerView {
        MarkerView { op: self.op@, payload: self.payload@ }
    }
}

/// What a list of markers holds.
pub open spec fn markers_view(v: Seq<Marker>) -> Seq<MarkerView> {
    v.map_values(|m: Marker| m@)
}

/// The operations that the memory layer itself offers.
#[derive(Clone, Copy, Debug, PartialEq, Eq, Structural)]
pub enum MarkerOp {
    SaveSemantic,
    SaveBehavior,
    GetContext,
}

impl MarkerOp {
    /// The name of the operation.
    pub open spec fn name(self) -> Seq<char> {
        match self {
            MarkerOp::SaveSemantic => "save_semantic"@,
            MarkerOp::SaveBehavior => "save_behavior"@,
            MarkerOp::GetContext => "get_context"@,
        }
    }

    /// The name of the operation.
    pub fn as_str(self) -> (r: &'static str)
        ensures
            r@ == self.name(),
    {
        match self {
            MarkerOp::SaveSemantic => "save_semantic",
            MarkerOp::SaveBehavior => "save_behavior",
            MarkerOp::GetContext => "get_context",
        }
    }

    /// The operation of that name.
    pub fn parse(s: &str) -> (r: Option<MarkerOp>)
        ensures
            match r {
                Some(op) => op.name() == s@,
                None => forall|op: MarkerOp| #[trigger] op.name() != s@,
            },
    {
        if str_eq(s, "save_semantic") {
            Some(MarkerOp::SaveSemantic)
        } else if str_eq(s, "save_behavior") {
            Some(MarkerOp::SaveBehavior)
        } else if str_eq(s, "get_context") {
            Some(MarkerOp::GetContext)
        } else {
            None
        }
    }
}

/// A name belongs to one operation, so reading a written operation gives it back.
pub proof fn law_marker_op_names_are_distinct(a: MarkerOp, b: MarkerOp)
    requires
        a.name() == b.name(),
    ensures
        a == b,
{
    reveal_strlit("save_semantic");
    reveal_strlit("save_behavior");
    reveal_strlit("get_context");
    assert("save_semantic"@[5] == 's');
    assert("save_behavior"@[5] == 'b');
    assert("get_context"@[5] == 'o');
}

// ------------------------------------------------------------- one marker

/// Where a marker and its parts stand in a text.
pub struct Span {
    /// The place of the prefix.
    pub start: usize,
    /// The place behind the marker.
    pub end: usize,
    pub json_start: usize,
    pub json_end: usize,
    pub op: String,
}

/// What a [`Span`] holds.
pub struct SpanView {
    pub start: int,
    pub end: int,
    pub json_start: int,
    pub json_end: int,
    pub op: Seq<char>,
}

impl View for Span {
    type V = SpanView;

    open spec fn view(&self) -> SpanView {
        SpanView {
            start: self.start as int,
            end: self.end as int,
            json_start: self.json_start as int,
            json_end: self.json_end as int,
            op: self.op@,
        }
    }
}

/// Where the next prefix at or after `from` stands, in upper case, in lower case
/// or in any mix of them.
pub open spec fn next_prefix(t: Seq<char>, from: int) -> Option<int> {
    first_match(folded(t), lower_prefix(), from)
}

/// The marker whose prefix stands at `m`: up to the next colon the name of the
/// tool, then blanks, then a JSON object up to the brace that closes it, then at
/// most ten closing brackets.
pub open spec fn marker_at(t: Seq<char>, m: int) -> Option<SpanView> {
    match first_char(t, ':', m + 12) {
        None => None,
        Some(colon) => {
            let json_start = skip_blanks(t, colon + 1);
            if json_start < t.len() && t[json_start] == '{' {
                let (json_end, depth) = count_braces(t, json_start, 0, false, false);
                if depth == 0 {
                    Some(
                        SpanView {
                            start: m,
                            end: json_end + closing_brackets(t, json_end, 10),
                            json_start,
                            json_end,
                            op: trimmed(t.subrange(m + 12, colon)),
                        },
                    )
                } else {
                    None
                }
            } else {
                None
            }
        },
    }
}

/// The next marker at or after `from`.
pub open spec fn next_marker(t: Seq<char>, from: int) -> Option<SpanView> {
    match next_prefix(t, from) {
        Some(m) => marker_at(t, m),
        None => None,
    }
}

proof fn lemma_skip_blanks_bounds(t: Seq<char>, from: int)
    ensures
        from <= skip_blanks(t, from),
        from <= t.len() ==> skip_blanks(t, from) <= t.len(),
    decreases t.len() - from,
{
    if from < t.len() && (t[from] == ' ' || t[from] == '\t') {
        lemma_skip_blanks_bounds(t, from + 1);
    }
}

/// A marker that opens with a brace and is never closed keeps its count above
/// zero, so a count of zero marks the closing brace.
proof fn lemma_marker_bounds(t: Seq<char>, m: int)
    requires
        0 <= m,
        m + 12 <= t.len(),
    ensures
        marker_at(t, m) matches Some(s) ==> s.start == m && m + 12 < s.json_start < s.json_end
            <= s.end <= t.len(),
{
    lemma_first_char_bounds(t, ':', m + 12);
    if let Some(colon) = first_char(t, ':', m + 12) {
        lemma_skip_blanks_bounds(t, colon + 1);
        let k = skip_blanks(t, colon + 1);
        if k < t.len() && t[k] == '{' {
            lemma_count_braces_bounds(t, k + 1, 1, false, false);
            let e = count_braces(t, k, 0, false, false).0;
            assert(e == count_braces(t, k + 1, 1, false, false).0);
            lemma_closing_brackets_bounds(t, e, 10);
        }
    }
}

proof fn lemma_next_prefix_bounds(t: Seq<char>, from: int)
    requires
        0 <= from,
    ensures
        next_prefix(t, from) matches Some(m) ==> from <= m && m + 12 <= t.len(),
{
    lemma_prefixes();
    lemma_first_match(folded(t), lower_prefix(), from);
}

/// A marker lies at or behind where the search began, and takes room.
pub proof fn lemma_next_marker_bounds(t: Seq<char>, from: int)
    requires
        0 <= from,
    ensures
        next_marker(t, from) matches Some(s) ==> from <= s.start && s.start + 12 < s.json_start
            < s.json_end <= s.end <= t.len(),
{
    lemma_next_prefix_bounds(t, from);
    if let Some(m) = next_prefix(t, from) {
        lemma_marker_bounds(t, m);
    }
}

/// The ASCII letters of `t` in lower case.
fn fold(t: &Vec<char>) -> (r: Vec<char>)
    ensures
        r@ == folded(t@),
{
    let mut out: Vec<char> = Vec::new();
    let mut i: usize = 0;
    while i < t.len()
        invariant
            i <= t@.len(),
            out@ == folded(t@).take(i as int),
        decreases t.len() - i,
    {
        let c = t[i];
        let lower = lower_char(c);
        out.push(lower);
        proof {
            assert(folded(t@).take(i + 1) =~= folded(t@).take(i as int).push(
                ascii_lower(t@[i as int]),
            ));
        }
        i += 1;
    }
    proof {
        assert(folded(t@).take(t@.len() as int) =~= folded(t@));
    }
    out
}

/// An ASCII letter in lower case; any other character as it is.
fn lower_char(c: char) -> (r: char)
    ensures
        r == ascii_lower(c),
{
    if 'A' <= c && c <= 'Z' {
        ((c as u8) + 32) as char
    } else {
        c
    }
}

/// Where the next prefix at or after `start` stands. `low` is the text in lower
/// case.
fn find_prefix(t: &Vec<char>, low: &Vec<char>, start: usize) -> (r: Option<usize>)
    requires
        low@ == folded(t@),
    ensures
        match r {
            Some(m) => next_prefix(t@, start as int) == Some(m as int) && start <= m && m + 12
                <= t@.len(),
            None => next_prefix(t@, start as int) is None,
        },
{
    let lower = chars_of("[[memory_op:");
    proof {
        lemma_prefixes();
        lemma_next_prefix_bounds(t@, start as int);
    }
    search(low, &lower, start)
}

/// The next marker at or after `start`.
pub fn find_next_marker(t: &Vec<char>, start: usize) -> (r: Option<Span>)
    ensures
        match r {
            Some(s) => next_marker(t@, start as int) == Some(s@),
            None => next_marker(t@, start as int) is None,
        },
{
    let low = fold(t);
    match find_prefix(t, &low, start) {
        Some(m) => read_marker(t, m),
        None => None,
    }
}

/// The marker whose prefix stands at `m`.
fn read_marker(t: &Vec<char>, m: usize) -> (r: Option<Span>)
    requires
        m + 12 <= t@.len(),
    ensures
        match r {
            Some(s) => marker_at(t@, m as int) == Some(s@),
            None => marker_at(t@, m as int) is None,
        },
{
    let n: usize = t.len();
    proof {
        lemma_marker_bounds(t@, m as int);
    }
    let colon: usize = match search_char(t, ':', m + 12) {
        Some(i) => i,
        None => {
            return None;
        },
    };
    let json_start = pass_blanks(t, colon + 1);
    if json_start >= t.len() || t[json_start] != '{' {
        return None;
    }
    let (json_end, depth) = scan_braces(t, json_start);
    if depth != 0 {
        return None;
    }
    let closing = count_closing(t, json_end, 10);
    let name = slice_of(t, m + 12, colon);
    Some(Span { start: m, end: json_end + closing, json_start, json_end, op: trim(name.as_str()) })
}

// ------------------------------------------------------------ whole answers

/// What an answer holds: its text without the markers, and the markers.
#[derive(Debug)]
pub struct ParsedResponse {
    pub cleaned_text: String,
    pub markers: Vec<Marker>,
}

/// The text of `t` from `cursor` on without its markers, and those markers. A
/// prefix that opens no marker is dropped, and what follows it is read on.
pub open spec fn parsed_from(t: Seq<char>, cursor: int) -> (Seq<char>, Seq<MarkerView>)
    decreases t.len() - cursor,
{
    match next_marker(t, cursor) {
        Some(s) => if cursor <= s.start <= t.len() && cursor < s.end <= t.len() {
            let (text, markers) = parsed_from(t, s.end);
            (
                t.subrange(cursor, s.start) + text,
                seq![
                    MarkerView { op: s.op, payload: t.subrange(s.json_start, s.json_end) },
                ] + markers,
            )
        } else {
            (Seq::empty(), Seq::empty())
        },
        None => match next_prefix(t, cursor) {
            Some(m) => if cursor <= m && m + 12 <= t.len() {
                let (text, markers) = parsed_from(t, m + 12);
                (t.subrange(cursor, m) + text, markers)
            } else {
                (Seq::empty(), Seq::empty())
            },
            None => (t.skip(cursor), Seq::empty()),
        },
    }
}

/// The markers whose entry in `valid` holds.
pub open spec fn accepted(raw: Seq<MarkerView>, valid: Seq<bool>) -> Seq<MarkerView>
    decreases raw.len(),
{
    if raw.len() == 0 {
        Seq::empty()
    } else {
        let before = accepted(raw.drop_last(), valid);
        if valid[raw.len() - 1] {
            before.push(raw.last())
        } else {
            before
        }
    }
}

/// The value that `serde_json` reads from a text, written out by it without white
/// space; nothing where it reads none.
pub uninterp spec fn json_compact(text: Seq<char>) -> Option<Seq<char>>;

/// `serde_json::from_str` into a `serde_json::Value`, and the `Display` of that
/// value, which writes it in compact form. Both depend on the text alone.
#[verifier::external_body]
pub(crate) fn compact_json(text: &str) -> (r: Option<String>)
    ensures
        match r {
            Some(s) => json_compact(text@) == Some(s@),
            None => json_compact(text@) is None,
        },
{
    serde_json::from_str::<serde_json::Value>(text).ok().map(|value| value.to_string())
}

/// Whether `serde_json` reads a text as one JSON value.
pub open spec fn json_valid(text: Seq<char>) -> bool {
    json_compact(text) is Some
}

/// Whether a text is one JSON value.
pub(crate) fn is_json(text: &str) -> (r: bool)
    ensures
        r == json_valid(text@),
{
    compact_json(text).is_some()
}

/// For each marker whether its payload is JSON.
pub open spec fn validity(raw: Seq<MarkerView>) -> Seq<bool> {
    raw.map_values(|m: MarkerView| json_valid(m.payload))
}

/// Takes the markers out of `text`, whatever their payloads are. Gives the text
/// that is left, without the white space around it, and the markers in order.
pub fn split_markers(text: &str) -> (r: (String, Vec<Marker>))
    ensures
        r.0@ == trimmed(parsed_from(text@, 0).0),
        markers_view(r.1@) == parsed_from(text@, 0).1,
{
    let t = chars_of(text);
    let low = fold(&t);
    let n: usize = t.len();
    let ghost want = parsed_from(text@, 0);
    let mut cleaned = String::new();
    let mut markers: Vec<Marker> = Vec::new();
    let mut cursor: usize = 0;
    proof {
        lemma_prefixes();
        assert(cleaned@ + want.0 =~= want.0);
        assert(markers_view(markers@) + want.1 =~= want.1);
    }
    loop
        invariant
            cursor <= n,
            n == t@.len(),
            t@ == text@,
            low@ == folded(t@),
            want == parsed_from(text@, 0),
            cleaned@ + parsed_from(t@, cursor as int).0 == want.0,
            markers_view(markers@) + parsed_from(t@, cursor as int).1 == want.1,
        ensures
            cursor <= n,
            n == t@.len(),
            cleaned@ + t@.skip(cursor as int) == want.0,
            markers_view(markers@) == want.1,
        decreases t@.len() - cursor,
    {
        let ghost here = parsed_from(t@, cursor as int);
        let ghost text_before = cleaned@;
        let ghost markers_before = markers@;
        proof {
            lemma_next_marker_bounds(t@, cursor as int);
        }
        let m: usize = match find_prefix(&t, &low, cursor) {
            Some(m) => m,
            None => {
                proof {
                    assert(markers_view(markers@) + Seq::<MarkerView>::empty() =~= markers_view(
                        markers@,
                    ));
                }
                break;
            },
        };
        match read_marker(&t, m) {
            Some(s) => {
                let prose = slice_of(&t, cursor, s.start);
                cleaned.append(prose.as_str());
                let payload = slice_of(&t, s.json_start, s.json_end);
                let ghost view = MarkerView { op: s.op@, payload: payload@ };
                markers.push(Marker { op: s.op, payload });
                proof {
                    let (c, ms) = parsed_from(t@, s.end as int);
                    assert(here == (prose@ + c, seq![view] + ms));
                    assert(text_before + (prose@ + c) =~= cleaned@ + c);
                    assert(markers_view(markers@) =~= markers_view(markers_before).push(view));
                    assert(markers_view(markers_before) + (seq![view] + ms) =~= markers_view(
                        markers@,
                    ) + ms);
                }
                cursor = s.end;
            },
            None => {
                let prose = slice_of(&t, cursor, m);
                cleaned.append(prose.as_str());
                proof {
                    let (c, ms) = parsed_from(t@, m + 12);
                    assert(text_before + (prose@ + c) =~= cleaned@ + c);
                }
                cursor = m + 12;
            },
        }
    }
    let rest = slice_of(&t, cursor, n);
    proof {
        assert(rest@ =~= t@.skip(cursor as int));
    }
    cleaned.append(rest.as_str());
    (trim(cleaned.as_str()), markers)
}

/// The markers whose entry in `valid` holds, in order.
pub fn keep_valid(raw: Vec<Marker>, valid: &Vec<bool>) -> (r: Vec<Marker>)
    requires
        raw@.len() == valid@.len(),
    ensures
        markers_view(r@) == accepted(markers_view(raw@), valid@),
{
    let ghost all = markers_view(raw@);
    let mut out: Vec<Marker> = Vec::new();
    let mut i: usize = 0;
    proof {
        assert(all.take(0) =~= Seq::<MarkerView>::empty());
        assert(markers_view(out@) =~= Seq::<MarkerView>::empty());
    }
    while i < raw.len()
        invariant
            i <= raw@.len(),
            raw@.len() == valid@.len(),
            all == markers_view(raw@),
            markers_view(out@) == accepted(all.take(i as int), valid@),
        decreases raw.len() - i,
    {
        let ghost before = out@;
        proof {
            assert(all.take(i + 1).drop_last() =~= all.take(i as int));
            assert(all.take(i + 1).last() == raw@[i as int]@);
        }
        if valid[i] {
            out.push(Marker { op: raw[i].op.clone(), payload: raw[i].payload.clone() });
            proof {
                assert(markers_view(out@) =~= markers_view(before).push(raw@[i as int]@));
            }
        }
        i += 1;
    }
    proof {
        assert(all.take(all.len() as int) =~= all);
    }
    out
}

/// Takes every marker out of `text`. The markers whose payload is JSON are kept
/// in order; the others are dropped.
pub fn parse_markers(text: &str) -> (r: ParsedResponse)
    ensures
        r.cleaned_text@ == trimmed(parsed_from(text@, 0).0),
        markers_view(r.markers@) == accepted(
            parsed_from(text@, 0).1,
            validity(parsed_from(text@, 0).1),
        ),
{
    let (cleaned_text, raw) = split_markers(text);
    let ghost all = parsed_from(text@, 0).1;
    let mut valid: Vec<bool> = Vec::new();
    let mut i: usize = 0;
    while i < raw.len()
        invariant
            i <= raw@.len(),
            markers_view(raw@) == all,
            valid@ == validity(all).take(i as int),
        decreases raw.len() - i,
    {
        let ok = is_json(raw[i].payload.as_str());
        proof {
            assert(markers_view(raw@)[i as int] == raw@[i as int]@);
            assert(validity(all).take(i + 1) =~= validity(all).take(i as int).push(ok));
        }
        valid.push(ok);
        i += 1;
    }
    proof {
        assert(validity(all).take(all.len() as int) =~= validity(all));
    }
    let markers = keep_valid(raw, &valid);
    ParsedResponse { cleaned_text, markers }
}

// --------------------------------------------------------- malformed markers

/// A prefix that opens no marker.
#[derive(Debug, PartialEq, Eq, Structural)]
pub struct MalformedMarker {
    /// Where the prefix begins, in bytes.
    pub position: usize,
    pub kind: MalformedKind,
}

#[derive(Clone, Copy, Debug, PartialEq, Eq, Structural)]
pub enum MalformedKind {
    /// Something follows the name of the tool, but no JSON object.
    EmptyOrNonObjectPayload,
    /// No colon follows the prefix, or nothing follows the name of the tool.
    Unclosed,
}

impl MalformedKind {
    /// What is reported of the fault.
    pub open spec fn spec_warning(self) -> Seq<char> {
        match self {
            MalformedKind::EmptyOrNonObjectPayload =>
                "skill marker has empty or non-object payload; skipping"@,
            MalformedKind::Unclosed =>
                "skill marker is unclosed (no payload or terminator); skipping"@,
        }
    }

    /// What is reported of the fault.
    pub fn warning(self) -> (r: &'static str)
        ensures
            r@ == self.spec_warning(),
    {
        match self {
            MalformedKind::EmptyOrNonObjectPayload =>
                "skill marker has empty or non-object payload; skipping",
            MalformedKind::Unclosed =>
                "skill marker is unclosed (no payload or terminator); skipping",
        }
    }
}

/// Where the next prefix stands that is all in upper or all in lower case.
pub open spec fn next_exact(t: Seq<char>, from: int) -> Option<int> {
    match (first_match(t, upper_prefix(), from), first_match(t, lower_prefix(), from)) {
        (Some(a), Some(b)) => Some(
            if a <= b {
                a
            } else {
                b
            },
        ),
        (Some(a), None) => Some(a),
        (None, b) => b,
    }
}

/// What is wrong with the marker whose prefix stands at `m`.
pub open spec fn fault(t: Seq<char>, m: int) -> Option<MalformedKind> {
    match first_char(t, ':', m + 12) {
        None => Some(MalformedKind::Unclosed),
        Some(colon) => {
            let k = skip_blanks(t, colon + 1);
            if k >= t.len() {
                Some(MalformedKind::Unclosed)
            } else if t[k] == '{' {
                None
            } else {
                Some(MalformedKind::EmptyOrNonObjectPayload)
            }
        },
    }
}

/// The faulty markers from `from` on, by the place of their prefix.
pub open spec fn faults_from(t: Seq<char>, from: int) -> Seq<(int, MalformedKind)>
    decreases t.len() - from,
{
    match next_exact(t, from) {
        Some(m) => if from <= m && m + 12 <= t.len() {
            let rest = faults_from(t, m + 12);
            match fault(t, m) {
                Some(kind) => seq![(m, kind)] + rest,
                None => rest,
            }
        } else {
            Seq::empty()
        },
        None => Seq::empty(),
    }
}

/// Faults by the byte at which their prefix begins.
pub open spec fn located(t: Seq<char>, faults: Seq<(int, MalformedKind)>) -> Seq<
    MalformedMarker,
> {
    faults.map_values(
        |f: (int, MalformedKind)|
            MalformedMarker { position: byte_len(t.take(f.0)) as usize, kind: f.1 },
    )
}

/// Every prefix in upper or lower case that is not followed by a tool name and a
/// JSON object, in order.
pub fn find_malformed_prefixes(text: &str) -> (r: Vec<MalformedMarker>)
    ensures
        r@ == located(text@, faults_from(text@, 0)),
        byte_len(text@) <= usize::MAX,
{
    let total = crate::text::byte_length(text);
    let t = chars_of(text);
    let upper = chars_of("[[MEMORY_OP:");
    let lower = chars_of("[[memory_op:");
    let n: usize = t.len();
    let ghost want = located(text@, faults_from(text@, 0));
    let mut out: Vec<MalformedMarker> = Vec::new();
    let mut from: usize = 0;
    // How many bytes the characters before `from` take.
    let mut offset: usize = 0;
    proof {
        lemma_prefixes();
        assert(t@.take(0) =~= Seq::<char>::empty());
        assert(out@ + want =~= want);
    }
    loop
        invariant
            from <= n,
            n == t@.len(),
            t@ == text@,
            total == byte_len(text@),
            offset == byte_len(t@.take(from as int)),
            upper@ == upper_prefix(),
            lower@ == lower_prefix(),
            upper_prefix().len() == 12,
            lower_prefix().len() == 12,
            want == located(text@, faults_from(text@, 0)),
            out@ + located(t@, faults_from(t@, from as int)) == want,
        ensures
            out@ == want,
        decreases n - from,
    {
        let a = search(&t, &upper, from);
        let b = search(&t, &lower, from);
        let next: Option<usize> = match (a, b) {
            (Some(x), Some(y)) => Some(
                if x <= y {
                    x
                } else {
                    y
                },
            ),
            (Some(x), None) => Some(x),
            (None, y) => y,
        };
        let m: usize = match next {
            Some(m) => m,
            None => {
                proof {
                    assert(located(t@, faults_from(t@, from as int)) =~= Seq::<
                        MalformedMarker,
                    >::empty());
                    assert(out@ + Seq::<MalformedMarker>::empty() =~= out@);
                }
                break;
            },
        };
        let at = bytes_to(&t, from, offset, m, total);
        let kind = classify(&t, m);
        let ghost before = out@;
        let ghost rest = faults_from(t@, m + 12);
        match kind {
            Some(k) => {
                out.push(MalformedMarker { position: at, kind: k });
                proof {
                    assert(located(t@, seq![(m as int, k)] + rest) =~= seq![
                        MalformedMarker { position: at, kind: k },
                    ] + located(t@, rest));
                    assert(before + (seq![MalformedMarker { position: at, kind: k }] + located(
                        t@,
                        rest,
                    )) =~= out@ + located(t@, rest));
                }
            },
            None => {},
        }
        offset = bytes_to(&t, m, at, m + 12, total);
        from = m + 12;
    }
    out
}

/// What is reported of each faulty marker in `text`, with the byte at which it
/// begins.
pub fn warn_about_malformed_prefixes(text: &str) -> (r: Vec<(usize, &'static str)>)
    ensures
        ({
            let faults = located(text@, faults_from(text@, 0));
            &&& r@.len() == faults.len()
            &&& forall|i: int|
                0 <= i < faults.len() ==> (#[trigger] r@[i]).0 == faults[i].position && r@[i].1@
                    == faults[i].kind.spec_warning()
        }),
{
    let faults = find_malformed_prefixes(text);
    let n: usize = faults.len();
    let mut out: Vec<(usize, &'static str)> = Vec::new();
    let mut i: usize = 0;
    while i < n
        invariant
            n == faults@.len(),
            i <= n,
            out@.len() == i,
            forall|k: int|
                0 <= k < i ==> (#[trigger] out@[k]).0 == faults@[k].position && out@[k].1@
                    == faults@[k].kind.spec_warning(),
        decreases n - i,
    {
        out.push((faults[i].position, faults[i].kind.warning()));
        i += 1;
    }
    out
}

/// What is wrong with the marker whose prefix stands at `m`.
fn classify(t: &Vec<char>, m: usize) -> (r: Option<MalformedKind>)
    requires
        m + 12 <= t@.len(),
    ensures
        r == fault(t@, m as int),
{
    let n: usize = t.len();
    match search_char(t, ':', m + 12) {
        None => Some(MalformedKind::Unclosed),
        Some(colon) => {
            let k = pass_blanks(t, colon + 1);
            if k >= n {
                Some(MalformedKind::Unclosed)
            } else if t[k] == '{' {
                None
            } else {
                Some(MalformedKind::EmptyOrNonObjectPayload)
            }
        },
    }
}

// --------------------------------------------------------------------- laws

/// The reader of markers and the finder of faults agree: a prefix that opens a
/// marker is never reported.
pub proof fn law_markers_are_not_malformed(t: Seq<char>, m: int)
    requires
        marker_at(t, m) is Some,
    ensures
        fault(t, m) is None,
{
}

/// A text without a prefix, in whatever case, holds no marker and stays whole.
pub proof fn law_text_without_prefix_is_kept(t: Seq<char>)
    requires
        next_prefix(t, 0) is None,
    ensures
        parsed_from(t, 0) == (t, Seq::<MarkerView>::empty()),
{
    assert(t.skip(0) =~= t);
}

/// The text of a marker.
pub open spec fn written(op: Seq<char>, payload: Seq<char>) -> Seq<char> {
    upper_prefix() + op + seq![':'] + payload + seq![']', ']']
}

/// Whether a payload is an object whose braces close at its very end.
pub open spec fn is_object(payload: Seq<char>) -> bool {
    &&& payload.len() > 0
    &&& payload[0] == '{'
    &&& count_braces(payload, 0, 0, false, false) == (payload.len() as int, 0int)
}

proof fn lemma_count_braces_inside(
    a: Seq<char>,
    j: Seq<char>,
    b: Seq<char>,
    i: int,
    depth: int,
    in_string: bool,
    escape: bool,
)
    requires
        0 <= i,
        depth >= 1,
        count_braces(j, i, depth, in_string, escape).1 == 0,
    ensures
        count_braces(a + j + b, a.len() + i, depth, in_string, escape) == (
            a.len() + count_braces(j, i, depth, in_string, escape).0,
            0int,
        ),
    decreases j.len() - i,
{
    if i < j.len() {
        assert((a + j + b)[a.len() + i] == j[i]);
        if in_string {
            if escape {
                lemma_count_braces_inside(a, j, b, i + 1, depth, true, false);
            } else if j[i] == '\\' {
                lemma_count_braces_inside(a, j, b, i + 1, depth, true, true);
            } else {
                lemma_count_braces_inside(a, j, b, i + 1, depth, j[i] != '"', false);
            }
        } else if j[i] == '"' {
            lemma_count_braces_inside(a, j, b, i + 1, depth, true, false);
        } else if j[i] == '{' {
            lemma_count_braces_inside(a, j, b, i + 1, depth + 1, false, false);
        } else if j[i] == '}' {
            if depth != 1 {
                lemma_count_braces_inside(a, j, b, i + 1, depth - 1, false, false);
            }
        } else {
            lemma_count_braces_inside(a, j, b, i + 1, depth, false, false);
        }
    }
}

/// The prefix in upper case is the one in lower case once its letters are folded.
proof fn lemma_prefix_folds()
    ensures
        folded(upper_prefix()) == lower_prefix(),
{
    reveal_strlit("[[MEMORY_OP:");
    reveal_strlit("[[memory_op:");
    assert(folded(upper_prefix()) =~= lower_prefix());
}

pub(crate) proof fn lemma_first_char_is(t: Seq<char>, c: char, from: int, i: int)
    requires
        from <= i < t.len(),
        t[i] == c,
        forall|j: int| from <= j < i ==> t[j] != c,
    ensures
        first_char(t, c, from) == Some(i),
    decreases i - from,
{
    if from < i {
        lemma_first_char_is(t, c, from + 1, i);
    }
}

/// A marker that was written in full is read back: its tool and its payload
/// come out, and the text around it is what is left. No prefix, in whatever case,
/// begins in `before`, and no closing bracket follows the marker.
pub proof fn law_written_marker_is_read_back(
    before: Seq<char>,
    op: Seq<char>,
    payload: Seq<char>,
    after: Seq<char>,
)
    requires
        forall|i: int|
            0 <= i < before.len() ==> !matches_at(
                folded(before + upper_prefix()),
                lower_prefix(),
                i,
            ),
        forall|i: int| 0 <= i < op.len() ==> op[i] != ':',
        is_object(payload),
        after.len() > 0 ==> after[0] != ']',
    ensures
        ({
            let t = before + written(op, payload) + after;
            let rest = parsed_from(t, (before.len() + written(op, payload).len()) as int);
            parsed_from(t, 0) == (
                before + rest.0,
                seq![MarkerView { op: trimmed(op), payload }] + rest.1,
            )
        }),
{
    lemma_prefixes();
    let t = before + written(op, payload) + after;
    let m = before.len() as int;
    let colon = m + 12 + op.len();
    let k = colon + 1;
    let e = k + payload.len();
    lemma_prefix_folds();
    assert(t.subrange(m, m + 12) =~= upper_prefix());
    assert(folded(t).subrange(m, m + 12) =~= folded(t.subrange(m, m + 12)));
    assert(matches_at(folded(t), lower_prefix(), m));
    assert forall|j: int| 0 <= j < m implies !matches_at(folded(t), lower_prefix(), j) by {
        let near = before + upper_prefix();
        assert(!matches_at(folded(near), lower_prefix(), j));
        assert(folded(near).subrange(j, j + 12) =~= folded(t).subrange(j, j + 12));
    }
    super::scan::lemma_first_match_is(folded(t), lower_prefix(), 0, m);
    assert(t[colon] == ':');
    assert forall|j: int| m + 12 <= j < colon implies t[j] != ':' by {
        assert(t[j] == op[j - m - 12]);
    }
    lemma_first_char_is(t, ':', m + 12, colon);
    assert(t[k] == payload[0]);
    assert(skip_blanks(t, k) == k);
    let a = before + upper_prefix() + op + seq![':'];
    let b = seq![']', ']'] + after;
    assert(t =~= a + payload + b);
    assert(a.len() == k);
    assert(count_braces(payload, 0, 0, false, false) == count_braces(payload, 1, 1, false, false));
    lemma_count_braces_inside(a, payload, b, 1, 1, false, false);
    assert(count_braces(t, k, 0, false, false) == count_braces(t, k + 1, 1, false, false));
    assert(count_braces(t, k, 0, false, false) == (e, 0int));
    assert(t[e] == ']' && t[e + 1] == ']');
    if after.len() > 0 {
        assert(t[e + 2] == after[0]);
    }
    assert(closing_brackets(t, e + 2, 8) == 0);
    assert(closing_brackets(t, e + 1, 9) == 1);
    assert(closing_brackets(t, e, 10) == 2);
    assert(t.subrange(m + 12, colon) =~= op);
    assert(t.subrange(k, e) =~= payload);
    assert(t.subrange(0, m) =~= before);
    assert(e + 2 == before.len() + written(op, payload).len());
}

// What is kept of several markers

proof fn lemma_accepted_valid(raw: Seq<MarkerView>, v: Seq<bool>, w: Seq<bool>)
    requires
        forall|i: int| 0 <= i < raw.len() ==> v[i] == w[i],
    ensures
        accepted(raw, v) == accepted(raw, w),
    decreases raw.len(),
{
    if raw.len() > 0 {
        lemma_accepted_valid(raw.drop_last(), v, w);
    }
}

/// Markers are kept one by one: whether one is kept depends on its own entry, not on
/// what comes before or behind it or on how many there are, and the order stays.
pub proof fn law_markers_are_kept_one_by_one(
    a: Seq<MarkerView>,
    va: Seq<bool>,
    b: Seq<MarkerView>,
    vb: Seq<bool>,
    m: MarkerView,
)
    requires
        a.len() == va.len(),
        b.len() == vb.len(),
    ensures
        accepted(a + b, va + vb) == accepted(a, va) + accepted(b, vb),
        accepted(seq![m], seq![true]) == seq![m],
        accepted(seq![m], seq![false]) == Seq::<MarkerView>::empty(),
        accepted(Seq::empty(), Seq::empty()) == Seq::<MarkerView>::empty(),
    decreases b.len(),
{
    reveal_with_fuel(accepted, 2);
    assert(seq![m].drop_last() =~= Seq::<MarkerView>::empty());
    assert(Seq::<MarkerView>::empty().push(m) =~= seq![m]);
    if b.len() == 0 {
        assert(a + b =~= a);
        lemma_accepted_valid(a, va + vb, va);
        assert(accepted(a, va) + accepted(b, vb) =~= accepted(a, va));
    } else {
        law_markers_are_kept_one_by_one(a, va, b.drop_last(), vb.drop_last(), m);
        assert((a + b).drop_last() =~= a + b.drop_last());
        lemma_accepted_valid(a + b.drop_last(), va + vb, va + vb.drop_last());
        lemma_accepted_valid(b.drop_last(), vb, vb.drop_last());
        assert((va + vb)[a.len() + b.len() - 1] == vb[b.len() - 1]);
        assert((a + b).last() == b.last());
        if vb[b.len() - 1] {
            assert(accepted(a, va) + accepted(b.drop_last(), vb.drop_last()).push(b.last())
                =~= (accepted(a, va) + accepted(b.drop_last(), vb.drop_last())).push(b.last()));
        }
    }
}

/// Where every entry holds, all markers are kept as they are.
pub proof fn law_good_markers_all_stay(raw: Seq<MarkerView>, valid: Seq<bool>)
    requires
        raw.len() == valid.len(),
        forall|i: int| 0 <= i < valid.len() ==> valid[i],
    ensures
        accepted(raw, valid) == raw,
    decreases raw.len(),
{
    if raw.len() > 0 {
        let n = raw.len() - 1;
        law_good_markers_all_stay(raw.drop_last(), valid.drop_last());
        lemma_accepted_valid(raw.drop_last(), valid, valid.drop_last());
        assert(raw.drop_last().push(raw[n]) =~= raw);
    } else {
        assert(raw =~= Seq::<MarkerView>::empty());
    }
}

/// The markers of an answer that are handed on are those whose payload `serde_json`
/// reads: of two answers' worth of markers, those of the first and behind them those
/// of the second, and of one marker itself or nothing.
pub proof fn law_json_markers_are_handed_on(
    a: Seq<MarkerView>,
    b: Seq<MarkerView>,
    m: MarkerView,
)
    ensures
        accepted(a + b, validity(a + b)) == accepted(a, validity(a)) + accepted(b, validity(b)),
        accepted(seq![m], validity(seq![m])) == (if json_compact(m.payload) is Some {
            seq![m]
        } else {
            Seq::empty()
        }),
        (forall|i: int| 0 <= i < a.len() ==> json_compact((#[trigger] a[i]).payload) is Some)
            ==> accepted(a, validity(a)) == a,
{
    assert(validity(a + b) =~= validity(a) + validity(b));
    law_markers_are_kept_one_by_one(a, validity(a), b, validity(b), m);
    assert(validity(seq![m]) =~= seq![json_compact(m.payload) is Some]);
    if forall|i: int| 0 <= i < a.len() ==> json_compact((#[trigger] a[i]).payload) is Some {
        assert forall|i: int| 0 <= i < a.len() implies validity(a)[i] by {
            assert(json_compact(a[i].payload) is Some);
        }
        law_good_markers_all_stay(a, validity(a));
    }
}

/// A marker is among those handed on exactly where it was read and its payload is
/// JSON.
pub proof fn law_handed_on_means_read(raw: Seq<MarkerView>, m: MarkerView)
    ensures
        accepted(raw, validity(raw)).contains(m) <==> raw.contains(m) && json_compact(m.payload)
            is Some,
    decreases raw.len(),
{
    if raw.len() > 0 {
        let a = raw.drop_last();
        let b = seq![raw.last()];
        law_handed_on_means_read(a, m);
        assert(a + b =~= raw);
        law_json_markers_are_handed_on(a, b, raw.last());
        let all = accepted(raw, validity(raw));
        let left = accepted(a, validity(a));
        if left.contains(m) {
            let i = choose|i: int| 0 <= i < left.len() && left[i] == m;
            assert(all[i] == m);
        }
        if raw.contains(m) {
            let i = choose|i: int| 0 <= i < raw.len() && raw[i] == m;
            if i < a.len() {
                assert(a[i] == m);
            } else if json_compact(m.payload) is Some {
                assert(all.last() == m);
            }
        }
        if all.contains(m) {
            let i = choose|i: int| 0 <= i < all.len() && all[i] == m;
            if i < left.len() {
                assert(left[i] == m);
            } else {
                assert(raw.last() == m);
            }
        }
        if a.contains(m) {
            let i = choose|i: int| 0 <= i < a.len() && a[i] == m;
            assert(raw[i] == m);
        }
    } else {
        assert(accepted(raw, validity(raw)) =~= Seq::<MarkerView>::empty());
    }
}

// Whole answers

/// A piece of JSON text inside braces, by how it is written.
pub enum Body {
    /// Nothing more.
    End,
    /// A character that is neither a brace nor a quotation mark.
    Plain(char, Box<Body>),
    /// A string: its characters, each with whether a backslash stands before it.
    Quoted(Seq<(bool, char)>, Box<Body>),
    /// What stands in a pair of braces.
    Block(Box<Body>, Box<Body>),
}

/// The characters of a string as they are written.
pub open spec fn quoted_text(s: Seq<(bool, char)>) -> Seq<char>
    decreases s.len(),
{
    if s.len() == 0 {
        Seq::empty()
    } else if s[0].0 {
        seq!['\\', s[0].1] + quoted_text(s.skip(1))
    } else {
        seq![s[0].1] + quoted_text(s.skip(1))
    }
}

/// A body as it is written.
pub open spec fn body_text(b: Body) -> Seq<char>
    decreases b,
{
    match b {
        Body::End => Seq::empty(),
        Body::Plain(c, rest) => seq![c] + body_text(*rest),
        Body::Quoted(s, rest) => seq!['"'] + quoted_text(s) + seq!['"'] + body_text(*rest),
        Body::Block(inner, rest) => seq!['{'] + body_text(*inner) + seq!['}'] + body_text(*rest),
    }
}

/// Whether a body can be read as it was meant: what closes a string or opens a block
/// stands only where it does that.
pub open spec fn body_ok(b: Body) -> bool
    decreases b,
{
    match b {
        Body::End => true,
        Body::Plain(c, rest) => c != '"' && c != '{' && c != '}' && body_ok(*rest),
        Body::Quoted(s, rest) => {
            &&& forall|i: int|
                0 <= i < s.len() && !(#[trigger] s[i]).0 ==> s[i].1 != '"' && s[i].1 != '\\'
            &&& body_ok(*rest)
        },
        Body::Block(inner, rest) => body_ok(*inner) && body_ok(*rest),
    }
}

proof fn lemma_quoted_passed(t: Seq<char>, i: int, s: Seq<(bool, char)>, depth: int)
    requires
        0 <= i,
        i + quoted_text(s).len() < t.len(),
        t.subrange(i, i + quoted_text(s).len()) == quoted_text(s),
        t[i + quoted_text(s).len()] == '"',
        forall|k: int|
            0 <= k < s.len() && !(#[trigger] s[k]).0 ==> s[k].1 != '"' && s[k].1 != '\\',
    ensures
        count_braces(t, i, depth, true, false) == count_braces(
            t,
            i + quoted_text(s).len() + 1,
            depth,
            false,
            false,
        ),
    decreases s.len(),
{
    let q = quoted_text(s);
    if s.len() > 0 {
        let rest = s.skip(1);
        let qr = quoted_text(rest);
        assert forall|k: int| 0 <= k < rest.len() && !(#[trigger] rest[k]).0 implies rest[k].1
            != '"' && rest[k].1 != '\\' by {
            assert(rest[k] == s[k + 1]);
        }
        assert(t[i] == t.subrange(i, i + q.len())[0]);
        if s[0].0 {
            assert(t[i + 1] == t.subrange(i, i + q.len())[1]);
            assert(t.subrange(i + 2, i + 2 + qr.len()) =~= q.skip(2));
            assert(q.skip(2) =~= qr);
            lemma_quoted_passed(t, i + 2, rest, depth);
            assert(count_braces(t, i, depth, true, false) == count_braces(
                t,
                i + 1,
                depth,
                true,
                true,
            ));
        } else {
            assert(s[0].1 != '"' && s[0].1 != '\\');
            assert(t.subrange(i + 1, i + 1 + qr.len()) =~= q.skip(1));
            assert(q.skip(1) =~= qr);
            lemma_quoted_passed(t, i + 1, rest, depth);
        }
    }
}

/// A body inside braces leaves the count of braces as it was, whatever it nests and
/// whatever its strings hold.
pub proof fn law_body_leaves_depth(t: Seq<char>, i: int, b: Body, depth: int)
    requires
        body_ok(b),
        depth >= 1,
        0 <= i,
        i + body_text(b).len() <= t.len(),
        t.subrange(i, i + body_text(b).len()) == body_text(b),
    ensures
        count_braces(t, i, depth, false, false) == count_braces(
            t,
            i + body_text(b).len(),
            depth,
            false,
            false,
        ),
    decreases b,
{
    let w = body_text(b);
    match b {
        Body::End => {},
        Body::Plain(c, rest) => {
            assert(t[i] == t.subrange(i, i + w.len())[0]);
            assert(t.subrange(i + 1, i + w.len()) =~= w.skip(1));
            assert(w.skip(1) =~= body_text(*rest));
            law_body_leaves_depth(t, i + 1, *rest, depth);
        },
        Body::Quoted(s, rest) => {
            let q = quoted_text(s);
            let whole = t.subrange(i, i + w.len());
            assert(t[i] == whole[0]);
            assert(t[i + 1 + q.len()] == whole[1 + q.len() as int]);
            assert(t.subrange(i + 1, i + 1 + q.len()) =~= w.subrange(1, 1 + q.len() as int));
            assert(w.subrange(1, 1 + q.len() as int) =~= q);
            lemma_quoted_passed(t, i + 1, s, depth);
            assert(t.subrange(i + 2 + q.len(), i + w.len()) =~= w.skip(2 + q.len() as int));
            assert(w.skip(2 + q.len() as int) =~= body_text(*rest));
            law_body_leaves_depth(t, i + 2 + q.len(), *rest, depth);
        },
        Body::Block(inner, rest) => {
            let n = body_text(*inner).len() as int;
            let whole = t.subrange(i, i + w.len());
            assert(t[i] == whole[0]);
            assert(t[i + 1 + n] == whole[1 + n]);
            assert(t.subrange(i + 1, i + 1 + n) =~= w.subrange(1, 1 + n));
            assert(w.subrange(1, 1 + n) =~= body_text(*inner));
            law_body_leaves_depth(t, i + 1, *inner, depth + 1);
            assert(t.subrange(i + 2 + n, i + w.len()) =~= w.skip(2 + n));
            assert(w.skip(2 + n) =~= body_text(*rest));
            law_body_leaves_depth(t, i + 2 + n, *rest, depth);
        },
    }
}

/// A JSON object as it is written.
pub open spec fn object_text(b: Body) -> Seq<char> {
    seq!['{'] + body_text(b) + seq!['}']
}

/// An object ends at its own closing brace, and nowhere else.
pub proof fn law_object_ends_at_its_brace(t: Seq<char>, i: int, b: Body)
    requires
        body_ok(b),
        0 <= i,
        i + object_text(b).len() <= t.len(),
        t.subrange(i, i + object_text(b).len()) == object_text(b),
    ensures
        count_braces(t, i, 0, false, false) == (i + object_text(b).len(), 0int),
{
    let w = object_text(b);
    let n = body_text(b).len() as int;
    let whole = t.subrange(i, i + w.len());
    assert(t[i] == whole[0]);
    assert(t[i + 1 + n] == whole[1 + n]);
    assert(t.subrange(i + 1, i + 1 + n) =~= w.subrange(1, 1 + n));
    assert(w.subrange(1, 1 + n) =~= body_text(b));
    law_body_leaves_depth(t, i + 1, b, 1);
}

proof fn lemma_match_shift(t: Seq<char>, p: Seq<char>, k: int, from: int)
    requires
        0 <= k <= t.len(),
        0 <= from,
        p.len() > 0,
    ensures
        first_match(t.skip(k), p, from) == (match first_match(t, p, k + from) {
            Some(i) => Some(i - k),
            None => None,
        }),
    decreases t.len() - k - from,
{
    if k + from + p.len() <= t.len() {
        assert(t.skip(k).subrange(from, from + p.len()) =~= t.subrange(
            k + from,
            k + from + p.len(),
        ));
        if !matches_at(t, p, k + from) {
            lemma_match_shift(t, p, k, from + 1);
        }
    }
}

pub(crate) proof fn lemma_char_shift(t: Seq<char>, c: char, k: int, from: int)
    requires
        0 <= k <= t.len(),
        0 <= from,
    ensures
        first_char(t.skip(k), c, from) == (match first_char(t, c, k + from) {
            Some(i) => Some(i - k),
            None => None,
        }),
    decreases t.len() - k - from,
{
    if k + from < t.len() && t[k + from] != c {
        lemma_char_shift(t, c, k, from + 1);
    }
}

proof fn lemma_blanks_shift(t: Seq<char>, k: int, from: int)
    requires
        0 <= k <= t.len(),
        0 <= from,
    ensures
        skip_blanks(t.skip(k), from) == skip_blanks(t, k + from) - k,
    decreases t.len() - k - from,
{
    if k + from < t.len() && (t[k + from] == ' ' || t[k + from] == '\t') {
        lemma_blanks_shift(t, k, from + 1);
    }
}

pub(crate) proof fn lemma_braces_shift(
    t: Seq<char>,
    k: int,
    i: int,
    depth: int,
    in_string: bool,
    escape: bool,
)
    requires
        0 <= k <= t.len(),
        0 <= i,
        k + i <= t.len(),
    ensures
        count_braces(t.skip(k), i, depth, in_string, escape).0 == count_braces(
            t,
            k + i,
            depth,
            in_string,
            escape,
        ).0 - k,
        count_braces(t.skip(k), i, depth, in_string, escape).1 == count_braces(
            t,
            k + i,
            depth,
            in_string,
            escape,
        ).1,
    decreases t.len() - k - i,
{
    if k + i < t.len() {
        let c = t[k + i];
        assert(t.skip(k)[i] == c);
        if in_string {
            if escape {
                lemma_braces_shift(t, k, i + 1, depth, true, false);
            } else if c == '\\' {
                lemma_braces_shift(t, k, i + 1, depth, true, true);
            } else {
                lemma_braces_shift(t, k, i + 1, depth, c != '"', false);
            }
        } else if c == '"' {
            lemma_braces_shift(t, k, i + 1, depth, true, false);
        } else if c == '{' {
            lemma_braces_shift(t, k, i + 1, depth + 1, false, false);
        } else if c == '}' {
            if depth != 1 {
                lemma_braces_shift(t, k, i + 1, depth - 1, false, false);
            }
        } else {
            lemma_braces_shift(t, k, i + 1, depth, false, false);
        }
    }
}

pub(crate) proof fn lemma_brackets_shift(t: Seq<char>, k: int, i: int, most: nat)
    requires
        0 <= k <= t.len(),
        0 <= i,
    ensures
        closing_brackets(t.skip(k), i, most) == closing_brackets(t, k + i, most),
    decreases most,
{
    if most > 0 {
        lemma_brackets_shift(t, k, i + 1, (most - 1) as nat);
    }
}

/// Where a text is read from makes no difference: what stands before does not change
/// what is read behind it.
pub proof fn law_reading_goes_on(t: Seq<char>, k: int, from: int)
    requires
        0 <= k,
        0 <= from,
        k + from <= t.len(),
    ensures
        parsed_from(t, k + from) == parsed_from(t.skip(k), from),
    decreases t.len() - k - from,
{
    let u = t.skip(k);
    lemma_prefixes();
    assert(folded(u) =~= folded(t).skip(k));
    lemma_match_shift(folded(t), lower_prefix(), k, from);
    lemma_next_prefix_bounds(t, k + from);
    match next_prefix(t, k + from) {
        None => {
            assert(t.skip(k + from) =~= u.skip(from));
        },
        Some(m) => {
            lemma_marker_bounds(t, m);
            lemma_char_shift(t, ':', k, m - k + 12);
            lemma_first_char_bounds(t, ':', m + 12);
            match first_char(t, ':', m + 12) {
                None => {},
                Some(colon) => {
                    lemma_blanks_shift(t, k, colon - k + 1);
                    lemma_skip_blanks_bounds(t, colon + 1);
                    let j = skip_blanks(t, colon + 1);
                    if j < t.len() {
                        lemma_braces_shift(t, k, j - k, 0, false, false);
                        let e = count_braces(t, j, 0, false, false).0;
                        lemma_count_braces_bounds(t, j, 0, false, false);
                        lemma_brackets_shift(t, k, e - k, 10);
                        assert(u.subrange(m - k + 12, colon - k) =~= t.subrange(m + 12, colon));
                    }
                },
            }
            match marker_at(t, m) {
                Some(s) => {
                    law_reading_goes_on(t, k, s.end - k);
                    assert(t.subrange(k + from, s.start) =~= u.subrange(from, s.start - k));
                    assert(t.subrange(s.json_start, s.json_end) =~= u.subrange(
                        s.json_start - k,
                        s.json_end - k,
                    ));
                },
                None => {
                    law_reading_goes_on(t, k, m + 12 - k);
                    assert(t.subrange(k + from, m) =~= u.subrange(from, m - k));
                },
            }
        },
    }
}

proof fn lemma_blanks_passed(t: Seq<char>, i: int, j: int)
    requires
        0 <= i <= j < t.len(),
        forall|k: int| i <= k < j ==> t[k] == ' ' || t[k] == '\t',
        t[j] != ' ' && t[j] != '\t',
    ensures
        skip_blanks(t, i) == j,
    decreases j - i,
{
    if i < j {
        lemma_blanks_passed(t, i + 1, j);
    }
}

pub(crate) proof fn lemma_brackets_passed(t: Seq<char>, i: int, n: nat, most: nat)
    requires
        0 <= i,
        i + n <= t.len(),
        n <= most,
        forall|k: int| i <= k < i + n ==> t[k] == ']',
        i + n < t.len() ==> t[i + n] != ']',
    ensures
        closing_brackets(t, i, most) == n,
    decreases n,
{
    if n > 0 {
        lemma_brackets_passed(t, i + 1, (n - 1) as nat, (most - 1) as nat);
    }
}

/// An answer is read from the front: the prose in front of a marker stays, the
/// marker comes out with its tool and its arguments just as they were written, and
/// what follows is read as an answer of its own, so that every marker of it comes out
/// too, in order. The prefix may be in capitals or in small letters, blanks may stand
/// before the arguments, and up to ten closing brackets are taken, or none.
pub proof fn law_answer_is_read_from_the_front(
    before: Seq<char>,
    small: bool,
    op: Seq<char>,
    blanks: Seq<char>,
    body: Body,
    closing: nat,
    after: Seq<char>,
)
    requires
        forall|i: int| 0 <= i < before.len() ==> before[i] != '[',
        forall|i: int| 0 <= i < op.len() ==> op[i] != ':',
        forall|i: int| 0 <= i < blanks.len() ==> blanks[i] == ' ' || blanks[i] == '\t',
        body_ok(body),
        closing <= 10,
        after.len() > 0 ==> after[0] != ']',
    ensures
        ({
            let prefix = if small {
                "[[memory_op:"@
            } else {
                "[[MEMORY_OP:"@
            };
            let brackets = Seq::new(closing, |i: int| ']');
            let t = before + prefix + op + seq![':'] + blanks + object_text(body) + brackets
                + after;
            &&& parsed_from(t, 0).0 == before + parsed_from(after, 0).0
            &&& parsed_from(t, 0).1 == seq![
                MarkerView { op: trimmed(op), payload: object_text(body) },
            ] + parsed_from(after, 0).1
        }),
{
    lemma_prefixes();
    lemma_prefix_folds();
    let prefix = if small {
        "[[memory_op:"@
    } else {
        "[[MEMORY_OP:"@
    };
    let brackets = Seq::new(closing, |i: int| ']');
    let payload = object_text(body);
    let t = before + prefix + op + seq![':'] + blanks + payload + brackets + after;
    let m = before.len() as int;
    let colon = m + 12 + op.len();
    let k = colon + 1 + blanks.len();
    let e = k + payload.len();
    let end = e + closing;
    reveal_strlit("[[memory_op:");
    assert(folded(lower_prefix()) =~= lower_prefix());
    assert(t.subrange(m, m + 12) =~= prefix);
    assert(folded(t).subrange(m, m + 12) =~= folded(prefix));
    assert(matches_at(folded(t), lower_prefix(), m));
    assert forall|j: int| 0 <= j < m implies !matches_at(folded(t), lower_prefix(), j) by {
        assert(folded(t)[j] == ascii_lower(before[j]));
        if matches_at(folded(t), lower_prefix(), j) {
            assert(folded(t).subrange(j, j + 12)[0] == lower_prefix()[0]);
        }
    }
    super::scan::lemma_first_match_is(folded(t), lower_prefix(), 0, m);
    assert(t[colon] == ':');
    assert forall|j: int| m + 12 <= j < colon implies t[j] != ':' by {
        assert(t[j] == op[j - m - 12]);
    }
    lemma_first_char_is(t, ':', m + 12, colon);
    assert(t[k] == payload[0]);
    assert forall|j: int| colon + 1 <= j < k implies t[j] == ' ' || t[j] == '\t' by {
        assert(t[j] == blanks[j - colon - 1]);
    }
    lemma_blanks_passed(t, colon + 1, k);
    assert(t.subrange(k, e) =~= payload);
    law_object_ends_at_its_brace(t, k, body);
    assert forall|j: int| e <= j < end implies t[j] == ']' by {
        assert(t[j] == brackets[j - e]);
    }
    if after.len() > 0 {
        assert(t[end] == after[0]);
    }
    lemma_brackets_passed(t, e, closing, 10);
    assert(t.subrange(m + 12, colon) =~= op);
    assert(t.subrange(0, m) =~= before);
    law_reading_goes_on(t, end, 0);
    assert(t.skip(end) =~= after);
}

/// Prose without an opening bracket stays as it is, and holds no marker.
pub proof fn law_prose_is_kept(t: Seq<char>)
    requires
        forall|i: int| 0 <= i < t.len() ==> t[i] != '[',
    ensures
        parsed_from(t, 0) == (t, Seq::<MarkerView>::empty()),
{
    lemma_prefixes();
    lemma_first_match(folded(t), lower_prefix(), 0);
    if let Some(m) = next_prefix(t, 0) {
        assert(folded(t).subrange(m, m + 12)[0] == lower_prefix()[0]);
        assert(folded(t)[m] == ascii_lower(t[m]));
    }
    assert(t.skip(0) =~= t);
}

/// A prefix behind which no colon stands opens no marker: it is dropped, and what
/// follows it stays.
pub proof fn law_open_prefix_is_dropped(before: Seq<char>, after: Seq<char>)
    requires
        forall|i: int| 0 <= i < before.len() ==> before[i] != '[',
        forall|i: int| 0 <= i < after.len() ==> after[i] != '[' && after[i] != ':',
    ensures
        parsed_from(before + "[[MEMORY_OP:"@ + after, 0) == (
            before + after,
            Seq::<MarkerView>::empty(),
        ),
{
    lemma_prefixes();
    lemma_prefix_folds();
    let t = before + upper_prefix() + after;
    let m = before.len() as int;
    assert(t.subrange(m, m + 12) =~= upper_prefix());
    assert(folded(t).subrange(m, m + 12) =~= folded(upper_prefix()));
    assert forall|j: int| 0 <= j < m implies !matches_at(folded(t), lower_prefix(), j) by {
        assert(folded(t)[j] == ascii_lower(before[j]));
        if matches_at(folded(t), lower_prefix(), j) {
            assert(folded(t).subrange(j, j + 12)[0] == lower_prefix()[0]);
        }
    }
    super::scan::lemma_first_match_is(folded(t), lower_prefix(), 0, m);
    lemma_first_char_bounds(t, ':', m + 12);
    if let Some(c) = first_char(t, ':', m + 12) {
        assert(t[c] == after[c - m - 12]);
    }
    law_reading_goes_on(t, m + 12, 0);
    assert(t.skip(m + 12) =~= after);
    law_prose_is_kept(after);
    assert(t.subrange(0, m) =~= before);
}

/// A prefix cannot begin inside another one.
proof fn lemma_prefixes_do_not_overlap(t: Seq<char>, a: int, b: int)
    requires
        matches_at(t, upper_prefix(), a) || matches_at(t, lower_prefix(), a),
        matches_at(t, upper_prefix(), b) || matches_at(t, lower_prefix(), b),
        a < b,
    ensures
        a + 12 <= b,
{
    reveal_strlit("[[MEMORY_OP:");
    reveal_strlit("[[memory_op:");
    let x = t.subrange(a, a + 12);
    let y = t.subrange(b, b + 12);
    lemma_prefixes();
    if b < a + 12 {
        assert(x[b - a] == t[b]);
        assert(y[0] == t[b]);
        if b == a + 1 {
            assert(x[2] == t[a + 2]);
            assert(y[1] == t[a + 2]);
        }
    }
}

proof fn lemma_next_exact(t: Seq<char>, from: int)
    requires
        0 <= from,
    ensures
        match next_exact(t, from) {
            Some(m) => {
                &&& from <= m
                &&& m + 12 <= t.len()
                &&& matches_at(t, upper_prefix(), m) || matches_at(t, lower_prefix(), m)
                &&& forall|j: int|
                    from <= j < m ==> !matches_at(t, upper_prefix(), j) && !matches_at(
                        t,
                        lower_prefix(),
                        j,
                    )
            },
            None => forall|j: int|
                from <= j ==> !matches_at(t, upper_prefix(), j) && !matches_at(
                    t,
                    lower_prefix(),
                    j,
                ),
        },
{
    lemma_prefixes();
    super::scan::lemma_first_match(t, upper_prefix(), from);
    super::scan::lemma_first_match(t, lower_prefix(), from);
}

/// Whatever is reported stands at a prefix, in the order of the text.
pub proof fn law_faults_stand_at_prefixes(t: Seq<char>, from: int, i: int)
    requires
        0 <= from,
        0 <= i < faults_from(t, from).len(),
    ensures
        ({
            let (m, kind) = faults_from(t, from)[i];
            &&& from <= m
            &&& m + 12 <= t.len()
            &&& t.subrange(m, m + 12) == "[[MEMORY_OP:"@ || t.subrange(m, m + 12)
                == "[[memory_op:"@
            &&& i > 0 ==> faults_from(t, from)[i - 1].0 + 12 <= m
        }),
    decreases t.len() - from,
{
    lemma_prefixes();
    lemma_next_exact(t, from);
    match next_exact(t, from) {
        Some(m) => {
            let rest = faults_from(t, m + 12);
            if fault(t, m) is Some {
                if i > 0 {
                    law_faults_stand_at_prefixes(t, m + 12, i - 1);
                    if i > 1 {
                        law_faults_stand_at_prefixes(t, m + 12, i - 2);
                    }
                    assert(faults_from(t, from)[i] == rest[i - 1]);
                }
            } else {
                law_faults_stand_at_prefixes(t, m + 12, i);
            }
        },
        None => {},
    }
}

/// Every prefix is looked at: one that stands anywhere in the text is reported just where
/// something is wrong with it, and as what is wrong.
pub proof fn law_every_prefix_is_looked_at(t: Seq<char>, from: int, m: int, kind: MalformedKind)
    requires
        0 <= from <= m,
        m + 12 <= t.len(),
        t.subrange(m, m + 12) == "[[MEMORY_OP:"@ || t.subrange(m, m + 12) == "[[memory_op:"@,
    ensures
        faults_from(t, from).contains((m, kind)) <==> fault(t, m) == Some(kind),
    decreases t.len() - from,
{
    lemma_prefixes();
    lemma_next_exact(t, from);
    assert(matches_at(t, upper_prefix(), m) || matches_at(t, lower_prefix(), m));
    let a = next_exact(t, from)->0;
    let rest = faults_from(t, a + 12);
    let all = faults_from(t, from);
    if a < m {
        lemma_prefixes_do_not_overlap(t, a, m);
        law_every_prefix_is_looked_at(t, a + 12, m, kind);
        if fault(t, a) is Some {
            assert(all =~= seq![(a, fault(t, a)->0)] + rest);
            if rest.contains((m, kind)) {
                let k = choose|k: int| 0 <= k < rest.len() && rest[k] == (m, kind);
                assert(all[k + 1] == (m, kind));
            }
            if all.contains((m, kind)) {
                let k = choose|k: int| 0 <= k < all.len() && all[k] == (m, kind);
                assert(all[0].0 != m);
                assert(rest[k - 1] == (m, kind));
            }
        }
    } else {
        assert(a == m);
        assert forall|k: int| 0 <= k < rest.len() implies (#[trigger] rest[k]).0 > m by {
            law_faults_stand_at_prefixes(t, a + 12, k);
        }
        if fault(t, m) is Some {
            assert(all =~= seq![(m, fault(t, m)->0)] + rest);
            assert(all[0] == (m, fault(t, m)->0));
            if all.contains((m, kind)) {
                let k = choose|k: int| 0 <= k < all.len() && all[k] == (m, kind);
                if k > 0 {
                    assert(rest[k - 1] == (m, kind));
                }
            }
        }
    }
}

/// What is wrong with a marker: behind its name and the colon must come, after blanks, an
/// opening brace. Anything else there is a payload that is no object; with nothing there,
/// or without a colon, the marker is not closed.
pub proof fn law_what_is_wrong_with_a_marker(
    before: Seq<char>,
    prefix: Seq<char>,
    name: Seq<char>,
    blanks: Seq<char>,
    c: char,
    after: Seq<char>,
)
    requires
        prefix == "[[MEMORY_OP:"@ || prefix == "[[memory_op:"@,
        forall|i: int| 0 <= i < name.len() ==> name[i] != ':',
        forall|i: int| 0 <= i < blanks.len() ==> blanks[i] == ' ' || blanks[i] == '\t',
        c != ' ' && c != '\t',
    ensures
        ({
            let head = before + prefix + name;
            let m = before.len() as int;
            &&& fault(head, m) == Some(MalformedKind::Unclosed)
            &&& fault(head + seq![':'] + blanks, m) == Some(MalformedKind::Unclosed)
            &&& fault(head + seq![':'] + blanks + seq![c] + after, m) == (if c == '{' {
                None
            } else {
                Some(MalformedKind::EmptyOrNonObjectPayload)
            })
        }),
{
    lemma_prefixes();
    let head = before + prefix + name;
    let m = before.len() as int;
    let colon = m + 12 + name.len();
    assert forall|j: int| m + 12 <= j < colon implies head[j] != ':' by {
        assert(head[j] == name[j - m - 12]);
    }
    lemma_no_char(head, ':', m + 12);
    let open = head + seq![':'] + blanks;
    assert forall|j: int| m + 12 <= j < colon implies open[j] != ':' by {
        assert(open[j] == head[j]);
    }
    assert(open[colon] == ':');
    lemma_first_char_is(open, ':', m + 12, colon);
    assert forall|j: int| colon + 1 <= j < open.len() implies open[j] == ' ' || open[j]
        == '\t' by {
        assert(open[j] == blanks[j - colon - 1]);
    }
    lemma_blanks_to_the_end(open, colon + 1);
    let full = open + seq![c] + after;
    let k = open.len() as int;
    assert(full[k] == c);
    assert forall|j: int| 0 <= j < k implies full[j] == open[j] by {}
    lemma_first_char_is(full, ':', m + 12, colon);
    lemma_blanks_passed(full, colon + 1, k);
}

proof fn lemma_no_char(t: Seq<char>, c: char, from: int)
    requires
        forall|j: int| from <= j < t.len() ==> t[j] != c,
    ensures
        first_char(t, c, from) is None,
    decreases t.len() - from,
{
    if from < t.len() {
        lemma_no_char(t, c, from + 1);
    }
}

proof fn lemma_blanks_to_the_end(t: Seq<char>, from: int)
    requires
        0 <= from <= t.len(),
        forall|j: int| from <= j < t.len() ==> t[j] == ' ' || t[j] == '\t',
    ensures
        skip_blanks(t, from) == t.len(),
    decreases t.len() - from,
{
    if from < t.len() {
        lemma_blanks_to_the_end(t, from + 1);
    }
}

proof fn lemma_ascii_len(s: Seq<char>)
    requires
        forall|i: int| 0 <= i < s.len() ==> (s[i] as u32) < 0x80,
    ensures
        byte_len(s) == s.len(),
    decreases s.len(),
{
    if s.len() > 0 {
        lemma_ascii_len(s.drop_last());
    }
}

/// Each fault is reported once, with its kind, in order; and where the text holds ASCII
/// alone, at the character where its prefix stands.
pub proof fn law_faults_are_reported_one_by_one(
    t: Seq<char>,
    faults: Seq<(int, MalformedKind)>,
    i: int,
)
    requires
        0 <= i < faults.len(),
        0 <= faults[i].0 <= t.len() <= usize::MAX,
        forall|j: int| 0 <= j < t.len() ==> (t[j] as u32) < 0x80,
    ensures
        located(t, faults).len() == faults.len(),
        located(t, faults)[i].kind == faults[i].1,
        located(t, faults)[i].position == faults[i].0,
{
    lemma_ascii_len(t.take(faults[i].0));
}

} // verus!
