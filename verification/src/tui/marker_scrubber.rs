//! Removes memory markers from text that is still streaming in.
//!
//! A marker opens with `[[MEMORY_OP:` and closes with the next `]]` outside its
//! braces, so a JSON body is taken as one, whatever braces it nests and whatever
//! its strings hold. A delta may end inside a marker, or inside what may yet become
//! its opening; what is undecided then is carried over and put in front of the next
//! delta.

use vstd::prelude::*;

use crate::marker::skill::{body_ok, body_text, object_text, quoted_text, Body};
use crate::text::{chars_of, match_at, matches_at, slice_of};

verus! {

/// What opens a marker.
pub open spec fn opening() -> Seq<char> {
    "[[MEMORY_OP:"@
}

/// Where in the body of a marker a reader stands.
pub struct Place {
    /// How many braces are open.
    pub depth: nat,
    /// Whether a JSON string is open. Strings stand only inside braces.
    pub in_string: bool,
    /// Whether the last character was a backslash that escapes the next one.
    pub escape: bool,
}

/// Where a body begins: outside all braces.
pub open spec fn body_start() -> Place {
    Place { depth: 0, in_string: false, escape: false }
}

/// Where the reader stands behind `c`. Braces inside a string do not count, and a
/// closing brace too many changes nothing.
pub open spec fn place_after(at: Place, c: char) -> Place {
    if at.in_string {
        if at.escape {
            Place { escape: false, ..at }
        } else if c == '\\' {
            Place { escape: true, ..at }
        } else {
            Place { in_string: c != '"', ..at }
        }
    } else if c == '"' && at.depth > 0 {
        Place { in_string: true, ..at }
    } else if c == '{' {
        Place { depth: at.depth + 1, ..at }
    } else if c == '}' && at.depth > 0 {
        Place { depth: (at.depth - 1) as nat, ..at }
    } else {
        at
    }
}

/// Where the first `]]` outside all braces at or after `from` ends, for a reader who
/// stands at `at` there.
pub open spec fn closing(s: Seq<char>, from: int, at: Place) -> Option<int>
    decreases s.len() - from,
{
    if from + 1 >= s.len() {
        None
    } else if at.depth == 0 && s[from] == ']' && s[from + 1] == ']' {
        Some(from + 2)
    } else {
        closing(s, from + 1, place_after(at, s[from]))
    }
}

/// Whether a text may yet become an opening: it is the beginning of one.
pub open spec fn begins_opening(s: Seq<char>) -> bool {
    0 < s.len() < opening().len() && s == opening().take(s.len() as int)
}

/// The text that is shown of `s`: everything outside the markers that are whole,
/// up to the undecided tail.
pub open spec fn shown(s: Seq<char>) -> Seq<char>
    decreases s.len(),
{
    if s.len() == 0 {
        Seq::empty()
    } else if matches_at(s, opening(), 0) {
        match closing(s, 12, body_start()) {
            Some(k) => if 0 < k <= s.len() {
                shown(s.skip(k))
            } else {
                Seq::empty()
            },
            None => Seq::empty(),
        }
    } else if begins_opening(s) {
        Seq::empty()
    } else {
        seq![s[0]] + shown(s.skip(1))
    }
}

/// The tail of `s` that stays undecided until more text arrives: a marker that is
/// not closed, or the beginning of an opening.
pub open spec fn kept(s: Seq<char>) -> Seq<char>
    decreases s.len(),
{
    if s.len() == 0 {
        Seq::empty()
    } else if matches_at(s, opening(), 0) {
        match closing(s, 12, body_start()) {
            Some(k) => if 0 < k <= s.len() {
                kept(s.skip(k))
            } else {
                Seq::empty()
            },
            None => s,
        }
    } else if begins_opening(s) {
        s
    } else {
        kept(s.skip(1))
    }
}

proof fn lemma_closing_bounds(s: Seq<char>, from: int, at: Place)
    requires
        0 <= from,
    ensures
        closing(s, from, at) matches Some(k) ==> from + 2 <= k <= s.len(),
    decreases s.len() - from,
{
    if from + 1 < s.len() && !(at.depth == 0 && s[from] == ']' && s[from + 1] == ']') {
        lemma_closing_bounds(s, from + 1, place_after(at, s[from]));
    }
}

proof fn lemma_closing_shift(s: Seq<char>, d: int, from: int, at: Place)
    requires
        0 <= d <= s.len(),
        0 <= from,
    ensures
        closing(s.skip(d), from, at) == (match closing(s, d + from, at) {
            Some(k) => Some(k - d),
            None => None,
        }),
    decreases s.len() - d - from,
{
    if d + from + 1 < s.len() {
        assert(s.skip(d)[from] == s[d + from]);
        assert(s.skip(d)[from + 1] == s[d + from + 1]);
        if !(at.depth == 0 && s[d + from] == ']' && s[d + from + 1] == ']') {
            lemma_closing_shift(s, d, from + 1, place_after(at, s[d + from]));
        }
    }
}

proof fn lemma_opening()
    ensures
        opening().len() == 12,
        opening() == seq!['[', '[', 'M', 'E', 'M', 'O', 'R', 'Y', '_', 'O', 'P', ':'],
{
    reveal_strlit("[[MEMORY_OP:");
    assert(opening() =~= seq!['[', '[', 'M', 'E', 'M', 'O', 'R', 'Y', '_', 'O', 'P', ':']);
}

proof fn lemma_matches_shift(s: Seq<char>, d: int, i: int)
    requires
        0 <= d <= s.len(),
        0 <= i,
    ensures
        matches_at(s.skip(d), opening(), i) == matches_at(s, opening(), d + i),
{
    let n = opening().len();
    if d + i + n <= s.len() {
        assert(s.skip(d).subrange(i, i + n) == s.subrange(d + i, d + i + n));
    }
}

/// Whether the text from `i` on may yet become an opening.
fn may_open(v: &Vec<char>, open: &Vec<char>, i: usize) -> (r: bool)
    requires
        i <= v@.len(),
        open@ == opening(),
    ensures
        r == begins_opening(v@.skip(i as int)),
{
    let ghost tail = v@.skip(i as int);
    let total: usize = v.len();
    let n: usize = total - i;
    if n == 0 || n >= open.len() {
        return false;
    }
    let mut k: usize = 0;
    while k < n
        invariant
            total == v@.len(),
            n == total - i,
            0 < n < open@.len(),
            open@ == opening(),
            tail == v@.skip(i as int),
            k <= n,
            forall|j: int| 0 <= j < k ==> #[trigger] tail[j] == opening()[j],
        decreases n - k,
    {
        if v[i + k] != open[k] {
            proof {
                assert(tail[k as int] != opening().take(n as int)[k as int]);
            }
            return false;
        }
        proof {
            assert(tail[k as int] == opening()[k as int]);
        }
        k += 1;
    }
    proof {
        assert(tail =~= opening().take(n as int));
    }
    true
}

/// Removes markers from `carry_in` followed by `delta`. Returns what is shown;
/// `carry_in` becomes the tail to put in front of the next delta.
pub fn scrub(carry_in: &mut String, delta: &str) -> (out: String)
    ensures
        out@ == shown(old(carry_in)@ + delta@),
        final(carry_in)@ == kept(old(carry_in)@ + delta@),
{
    let mut text = carry_in.clone();
    text.append(delta);
    let v = chars_of(text.as_str());
    let open = chars_of("[[MEMORY_OP:");
    let ghost all = carry_in@ + delta@;
    let mut out = String::new();
    let mut i: usize = 0;
    proof {
        lemma_opening();
        assert(v@.skip(0) == v@);
    }
    while i < v.len()
        invariant
            i <= v@.len(),
            v@ == all,
            all == old(carry_in)@ + delta@,
            open@ == opening(),
            opening().len() == 12,
            out@ + shown(v@.skip(i as int)) == shown(all),
            kept(v@.skip(i as int)) == kept(all),
        decreases v.len() - i,
    {
        let ghost rest = v@.skip(i as int);
        proof {
            lemma_matches_shift(v@, i as int, 0);
            assert(rest == v@.subrange(i as int, v@.len() as int));
        }
        if match_at(&v, &open, i) {
            proof {
                lemma_closing_shift(v@, i as int, 12, body_start());
                lemma_closing_bounds(v@, i + 12, body_start());
            }
            match find_closing(&v, i + 12) {
                Some(k) => {
                    proof {
                        assert(rest.skip(k - i) == v@.skip(k as int));
                    }
                    i = k;
                },
                None => {
                    proof {
                        assert(out@ + Seq::<char>::empty() == out@);
                    }
                    *carry_in = slice_of(&v, i, v.len());
                    return out;
                },
            }
        } else if may_open(&v, &open, i) {
            proof {
                assert(out@ + Seq::<char>::empty() == out@);
            }
            *carry_in = slice_of(&v, i, v.len());
            return out;
        } else {
            let ghost before = out@;
            out.push(v[i]);
            proof {
                assert(rest.skip(1) == v@.skip(i + 1));
                assert(out@ + shown(v@.skip(i + 1)) == before + (seq![v@[i as int]] + shown(
                    v@.skip(i + 1),
                )));
            }
            i += 1;
        }
    }
    proof {
        assert(v@.skip(i as int) == Seq::<char>::empty());
        assert(out@ + Seq::<char>::empty() == out@);
    }
    *carry_in = String::new();
    out
}

/// Where the marker whose body begins at `from` ends.
fn find_closing(v: &Vec<char>, from: usize) -> (r: Option<usize>)
    requires
        from <= v@.len(),
    ensures
        match r {
            Some(k) => closing(v@, from as int, body_start()) == Some(k as int),
            None => closing(v@, from as int, body_start()) is None,
        },
{
    let n: usize = v.len();
    let mut k: usize = from;
    let mut depth: usize = 0;
    let mut in_string = false;
    let mut escape = false;
    while k < n && k + 1 < n
        invariant
            n == v@.len(),
            from <= k <= n,
            depth <= k - from,
            closing(v@, from as int, body_start()) == closing(
                v@,
                k as int,
                Place { depth: depth as nat, in_string, escape },
            ),
        decreases n - k,
    {
        let c = v[k];
        if depth == 0 && c == ']' && v[k + 1] == ']' {
            return Some(k + 2);
        }
        if in_string {
            if escape {
                escape = false;
            } else if c == '\\' {
                escape = true;
            } else {
                in_string = c != '"';
            }
        } else if c == '"' && depth > 0 {
            in_string = true;
        } else if c == '{' {
            depth += 1;
        } else if c == '}' && depth > 0 {
            depth -= 1;
        }
        k += 1;
    }
    None
}

// --------------------------------------------------------------------- laws

/// Text without an opening bracket is shown as it is, and nothing of it is kept.
pub proof fn law_plain_text_is_shown(s: Seq<char>)
    requires
        forall|i: int| 0 <= i < s.len() ==> s[i] != '[',
    ensures
        shown(s) == s,
        kept(s) == Seq::<char>::empty(),
    decreases s.len(),
{
    lemma_opening();
    if s.len() > 0 {
        if matches_at(s, opening(), 0) {
            assert(s.subrange(0, 12)[0] == '[');
        }
        if begins_opening(s) {
            assert(opening().take(s.len() as int)[0] == '[');
        }
        law_plain_text_is_shown(s.skip(1));
        assert(seq![s[0]] + s.skip(1) == s);
    }
}

/// A complete marker leaves no trace: what follows it is shown and kept as if the
/// marker were not there. The body is any text behind which the next `]]` is the
/// first one outside its braces.
pub proof fn law_marker_is_removed(body: Seq<char>, rest: Seq<char>)
    requires
        closing(body + seq![']', ']'], 0, body_start()) == Some(body.len() as int + 2),
    ensures
        shown(opening() + body + seq![']', ']'] + rest) == shown(rest),
        kept(opening() + body + seq![']', ']'] + rest) == kept(rest),
{
    lemma_opening();
    let inner = body + seq![']', ']'];
    let s = opening() + body + seq![']', ']'] + rest;
    assert(s.subrange(0, 12) == opening());
    assert(matches_at(s, opening(), 0));
    lemma_closing_extend(inner, rest, 0, body_start());
    assert(s.skip(12) == inner + rest);
    lemma_closing_shift(s, 12, 0, body_start());
    assert(s.skip(14 + body.len() as int) == rest);
}

/// What is kept is always a marker that is not closed yet or the beginning of an
/// opening, or nothing.
pub proof fn law_only_undecided_text_is_kept(s: Seq<char>)
    ensures
        ({
            let k = kept(s);
            k.len() == 0 || begins_opening(k) || (matches_at(k, opening(), 0) && closing(k, 12, body_start())
                is None)
        }),
    decreases s.len(),
{
    if s.len() > 0 {
        if matches_at(s, opening(), 0) {
            match closing(s, 12, body_start()) {
                Some(k) => if 0 < k <= s.len() {
                    law_only_undecided_text_is_kept(s.skip(k));
                },
                None => {},
            }
        } else if !begins_opening(s) {
            law_only_undecided_text_is_kept(s.skip(1));
        }
    }
}

proof fn lemma_closing_extend(s: Seq<char>, b: Seq<char>, from: int, at: Place)
    requires
        0 <= from,
        closing(s, from, at) is Some,
    ensures
        closing(s + b, from, at) == closing(s, from, at),
    decreases s.len() - from,
{
    assert((s + b)[from] == s[from]);
    assert((s + b)[from + 1] == s[from + 1]);
    if !(at.depth == 0 && s[from] == ']' && s[from + 1] == ']') {
        lemma_closing_extend(s, b, from + 1, place_after(at, s[from]));
    }
}

/// Scrubbing a text in two deltas shows and keeps the same as scrubbing it in one,
/// wherever it is cut.
pub proof fn law_deltas_compose(s: Seq<char>, b: Seq<char>)
    ensures
        shown(s) + shown(kept(s) + b) == shown(s + b),
        kept(kept(s) + b) == kept(s + b),
    decreases s.len(),
{
    lemma_opening();
    let u = s + b;
    if s.len() == 0 {
        assert(u == b);
        assert(kept(s) + b == b);
        assert(shown(s) + shown(b) == shown(b));
    } else if matches_at(s, opening(), 0) {
        assert(u.subrange(0, 12) == s.subrange(0, 12));
        lemma_closing_bounds(s, 12, body_start());
        match closing(s, 12, body_start()) {
            Some(k) => {
                lemma_closing_extend(s, b, 12, body_start());
                assert(u.skip(k) == s.skip(k) + b);
                law_deltas_compose(s.skip(k), b);
            },
            None => {
                assert(shown(s) + shown(u) == shown(u));
            },
        }
    } else if begins_opening(s) {
        assert(shown(s) + shown(u) == shown(u));
    } else {
        if matches_at(u, opening(), 0) {
            assert forall|i: int| 0 <= i < 12 implies u[i] == opening()[i] by {
                assert(u.subrange(0, 12)[i] == u[i]);
            }
            if s.len() >= 12 {
                assert(s.subrange(0, 12) =~= opening());
            } else {
                assert(s =~= opening().take(s.len() as int));
            }
            assert(false);
        }
        if begins_opening(u) {
            assert forall|i: int| 0 <= i < s.len() implies s[i] == opening()[i] by {
                assert(opening().take(u.len() as int)[i] == u[i]);
            }
            assert(s =~= opening().take(s.len() as int));
            assert(false);
        }
        assert(u.skip(1) == s.skip(1) + b);
        law_deltas_compose(s.skip(1), b);
        assert(shown(s) + shown(kept(s) + b) == seq![s[0]] + (shown(s.skip(1)) + shown(
            kept(s) + b,
        )));
    }
}

proof fn lemma_quoted_closing(s: Seq<char>, i: int, q: Seq<(bool, char)>, depth: nat)
    requires
        depth > 0,
        0 <= i,
        i + quoted_text(q).len() + 1 < s.len(),
        s.subrange(i, i + quoted_text(q).len()) == quoted_text(q),
        s[i + quoted_text(q).len()] == '"',
        forall|k: int|
            0 <= k < q.len() && !(#[trigger] q[k]).0 ==> q[k].1 != '"' && q[k].1 != '\\',
    ensures
        closing(s, i, Place { depth, in_string: true, escape: false }) == closing(
            s,
            i + quoted_text(q).len() + 1,
            Place { depth, in_string: false, escape: false },
        ),
    decreases q.len(),
{
    let w = quoted_text(q);
    if q.len() > 0 {
        let rest = q.skip(1);
        let wr = quoted_text(rest);
        assert forall|k: int| 0 <= k < rest.len() && !(#[trigger] rest[k]).0 implies rest[k].1
            != '"' && rest[k].1 != '\\' by {
            assert(rest[k] == q[k + 1]);
        }
        assert(s[i] == s.subrange(i, i + w.len())[0]);
        if q[0].0 {
            assert(s[i + 1] == s.subrange(i, i + w.len())[1]);
            assert(s.subrange(i + 2, i + 2 + wr.len()) =~= w.skip(2));
            assert(w.skip(2) =~= wr);
            lemma_quoted_closing(s, i + 2, rest, depth);
            assert(closing(s, i, Place { depth, in_string: true, escape: false }) == closing(
                s,
                i + 1,
                Place { depth, in_string: true, escape: true },
            ));
        } else {
            assert(q[0].1 != '"' && q[0].1 != '\\');
            assert(s.subrange(i + 1, i + 1 + wr.len()) =~= w.skip(1));
            assert(w.skip(1) =~= wr);
            lemma_quoted_closing(s, i + 1, rest, depth);
        }
    }
}

proof fn lemma_body_closing(s: Seq<char>, i: int, b: Body, depth: nat)
    requires
        body_ok(b),
        depth > 0,
        0 <= i,
        i + body_text(b).len() + 1 < s.len(),
        s.subrange(i, i + body_text(b).len()) == body_text(b),
    ensures
        closing(s, i, Place { depth, in_string: false, escape: false }) == closing(
            s,
            i + body_text(b).len(),
            Place { depth, in_string: false, escape: false },
        ),
    decreases b,
{
    let w = body_text(b);
    match b {
        Body::End => {},
        Body::Plain(c, rest) => {
            assert(s[i] == s.subrange(i, i + w.len())[0]);
            assert(s.subrange(i + 1, i + w.len()) =~= w.skip(1));
            assert(w.skip(1) =~= body_text(*rest));
            lemma_body_closing(s, i + 1, *rest, depth);
        },
        Body::Quoted(q, rest) => {
            let n = quoted_text(q).len() as int;
            let whole = s.subrange(i, i + w.len());
            assert(s[i] == whole[0]);
            assert(s[i + 1 + n] == whole[1 + n]);
            assert(s.subrange(i + 1, i + 1 + n) =~= w.subrange(1, 1 + n));
            assert(w.subrange(1, 1 + n) =~= quoted_text(q));
            lemma_quoted_closing(s, i + 1, q, depth);
            assert(s.subrange(i + 2 + n, i + w.len()) =~= w.skip(2 + n));
            assert(w.skip(2 + n) =~= body_text(*rest));
            lemma_body_closing(s, i + 2 + n, *rest, depth);
        },
        Body::Block(inner, rest) => {
            let n = body_text(*inner).len() as int;
            let whole = s.subrange(i, i + w.len());
            assert(s[i] == whole[0]);
            assert(s[i + 1 + n] == whole[1 + n]);
            assert(s.subrange(i + 1, i + 1 + n) =~= w.subrange(1, 1 + n));
            assert(w.subrange(1, 1 + n) =~= body_text(*inner));
            lemma_body_closing(s, i + 1, *inner, depth + 1);
            assert(s.subrange(i + 2 + n, i + w.len()) =~= w.skip(2 + n));
            assert(w.skip(2 + n) =~= body_text(*rest));
            lemma_body_closing(s, i + 2 + n, *rest, depth);
        },
    }
}

proof fn lemma_name_closing(s: Seq<char>, i: int, j: int)
    requires
        0 <= i <= j < s.len(),
        forall|k: int| i <= k < j ==> s[k] != ']' && s[k] != '{' && s[k] != '}',
    ensures
        closing(s, i, body_start()) == closing(s, j, body_start()),
    decreases j - i,
{
    if i < j {
        lemma_name_closing(s, i + 1, j);
    }
}

proof fn lemma_prose_shown(before: Seq<char>, rest: Seq<char>)
    requires
        forall|i: int| 0 <= i < before.len() ==> before[i] != '[',
    ensures
        shown(before + rest) == before + shown(rest),
        kept(before + rest) == kept(rest),
    decreases before.len(),
{
    lemma_opening();
    let s = before + rest;
    if before.len() == 0 {
        assert(s =~= rest);
        assert(before + shown(rest) =~= shown(rest));
    } else {
        assert(s[0] == before[0]);
        if matches_at(s, opening(), 0) {
            assert(s.subrange(0, 12)[0] == '[');
        }
        if begins_opening(s) {
            assert(opening().take(s.len() as int)[0] == '[');
        }
        lemma_prose_shown(before.skip(1), rest);
        assert(s.skip(1) =~= before.skip(1) + rest);
        assert(seq![before[0]] + (before.skip(1) + shown(rest)) =~= before + shown(rest));
    }
}

/// Of a stream the prose is shown and a marker is not: whatever its arguments nest and
/// whatever its strings hold, a marker ends at the brackets behind its last brace, and
/// what follows is shown as if it stood alone.
pub proof fn law_written_marker_is_not_shown(
    before: Seq<char>,
    name: Seq<char>,
    body: Body,
    rest: Seq<char>,
)
    requires
        forall|i: int| 0 <= i < before.len() ==> before[i] != '[',
        forall|i: int|
            0 <= i < name.len() ==> name[i] != ']' && name[i] != '{' && name[i] != '}',
        body_ok(body),
    ensures
        ({
            let s = before + ("[[MEMORY_OP:"@ + name + object_text(body) + seq![']', ']'] + rest);
            &&& shown(s) == before + shown(rest)
            &&& kept(s) == kept(rest)
        }),
{
    lemma_opening();
    let m = opening() + name + object_text(body) + seq![']', ']'] + rest;
    lemma_prose_shown(before, m);
    let a = 12 + name.len() as int;
    let n = body_text(body).len() as int;
    assert(m.subrange(0, 12) =~= opening());
    assert(matches_at(m, opening(), 0));
    assert forall|k: int| 12 <= k < a implies m[k] != ']' && m[k] != '{' && m[k] != '}' by {
        assert(m[k] == name[k - 12]);
    }
    lemma_name_closing(m, 12, a);
    assert(object_text(body)[0] == '{');
    assert(object_text(body)[n + 1] == '}');
    assert(m[a] == object_text(body)[0]);
    assert(m[a + n + 1] == object_text(body)[n + 1]);
    assert(m.subrange(a + 1, a + 1 + n) =~= body_text(body));
    lemma_body_closing(m, a + 1, body, 1);
    assert(m[a + n + 2] == ']' && m[a + n + 3] == ']');
    let at = Place { depth: 1, in_string: false, escape: false };
    assert(closing(m, a, body_start()) == closing(m, a + 1, at));
    assert(closing(m, a + 1 + n, at) == closing(m, a + n + 2, body_start()));
    assert(closing(m, 12, body_start()) == Some(a + n + 4));
    assert(m.skip(a + n + 4) =~= rest);
}

/// A marker that is not closed yet, and the beginning of one, is not shown but kept, with
/// nothing in front of it kept.
pub proof fn law_open_marker_is_kept(before: Seq<char>, inside: Seq<char>, k: int)
    requires
        forall|i: int| 0 <= i < before.len() ==> before[i] != '[',
        forall|i: int| 0 <= i < inside.len() ==> inside[i] != ']',
        0 < k < 12,
    ensures
        shown(before + ("[[MEMORY_OP:"@ + inside)) == before,
        kept(before + ("[[MEMORY_OP:"@ + inside)) == "[[MEMORY_OP:"@ + inside,
        shown(before + "[[MEMORY_OP:"@.take(k)) == before,
        kept(before + "[[MEMORY_OP:"@.take(k)) == "[[MEMORY_OP:"@.take(k),
{
    lemma_opening();
    let m = opening() + inside;
    lemma_prose_shown(before, m);
    assert(m.subrange(0, 12) =~= opening());
    assert forall|j: int| 12 <= j < m.len() implies m[j] != ']' by {
        assert(m[j] == inside[j - 12]);
    }
    lemma_never_closing(m, 12, body_start());
    assert(before + Seq::<char>::empty() =~= before);
    let p = opening().take(k);
    lemma_prose_shown(before, p);
    assert(begins_opening(p));
}

proof fn lemma_never_closing(s: Seq<char>, from: int, at: Place)
    requires
        0 <= from,
        forall|i: int| from <= i < s.len() ==> s[i] != ']',
    ensures
        closing(s, from, at) is None,
    decreases s.len() - from,
{
    if from + 1 < s.len() {
        lemma_never_closing(s, from + 1, place_after(at, s[from]));
    }
}

} // verus!
