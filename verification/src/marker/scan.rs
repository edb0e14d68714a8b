//! The pieces that marker readers share: prefixes and brace counting.

use vstd::prelude::*;

use crate::text::{ascii_lower, matches_at};

verus! {

/// What opens a marker.
pub open spec fn upper_prefix() -> Seq<char> {
    "[[MEMORY_OP:"@
}

/// What opens a marker that a model wrote in lower case.
pub open spec fn lower_prefix() -> Seq<char> {
    "[[memory_op:"@
}

/// The first place at or after `from` where `p` stands in `t`.
pub open spec fn first_match(t: Seq<char>, p: Seq<char>, from: int) -> Option<int>
    decreases t.len() - from,
{
    if from + p.len() > t.len() {
        None
    } else if matches_at(t, p, from) {
        Some(from)
    } else if p.len() == 0 {
        None
    } else {
        first_match(t, p, from + 1)
    }
}

/// `t` with its ASCII letters in lower case.
pub open spec fn folded(t: Seq<char>) -> Seq<char> {
    t.map_values(|c: char| ascii_lower(c))
}

/// The first place at or after `from` that holds `c`.
pub open spec fn first_char(t: Seq<char>, c: char, from: int) -> Option<int>
    decreases t.len() - from,
{
    if from >= t.len() {
        None
    } else if t[from] == c {
        Some(from)
    } else {
        first_char(t, c, from + 1)
    }
}

/// The first place at or after `from` that holds neither a blank nor a tab.
pub open spec fn skip_blanks(t: Seq<char>, from: int) -> int
    decreases t.len() - from,
{
    if from < t.len() && (t[from] == ' ' || t[from] == '\t') {
        skip_blanks(t, from + 1)
    } else {
        from
    }
}

/// Counts braces from `i` on, those inside JSON strings left aside. Gives the
/// place behind the brace that brings the count back to zero and zero, or the
/// end of the text and the count there.
pub open spec fn count_braces(
    t: Seq<char>,
    i: int,
    depth: int,
    in_string: bool,
    escape: bool,
) -> (int, int)
    decreases t.len() - i,
{
    if i >= t.len() {
        (t.len() as int, depth)
    } else if in_string {
        if escape {
            count_braces(t, i + 1, depth, true, false)
        } else if t[i] == '\\' {
            count_braces(t, i + 1, depth, true, true)
        } else {
            count_braces(t, i + 1, depth, t[i] != '"', false)
        }
    } else if t[i] == '"' {
        count_braces(t, i + 1, depth, true, false)
    } else if t[i] == '{' {
        count_braces(t, i + 1, depth + 1, false, false)
    } else if t[i] == '}' {
        if depth == 1 {
            (i + 1, 0)
        } else {
            count_braces(t, i + 1, depth - 1, false, false)
        }
    } else {
        count_braces(t, i + 1, depth, false, false)
    }
}

/// How many closing brackets follow from `i` on, at most `most`.
pub open spec fn closing_brackets(t: Seq<char>, i: int, most: nat) -> nat
    decreases most,
{
    if most > 0 && 0 <= i < t.len() && t[i] == ']' {
        1 + closing_brackets(t, i + 1, (most - 1) as nat)
    } else {
        0
    }
}

/// A character that is found stands inside the text, at or behind the start.
pub proof fn lemma_first_char_bounds(t: Seq<char>, c: char, from: int)
    ensures
        match first_char(t, c, from) {
            Some(i) => from <= i < t.len() && t[i] == c,
            None => true,
        },
    decreases t.len() - from,
{
    if from < t.len() && t[from] != c {
        lemma_first_char_bounds(t, c, from + 1);
    }
}

/// Where a brace count ends lies behind where it began.
pub proof fn lemma_count_braces_bounds(
    t: Seq<char>,
    i: int,
    depth: int,
    in_string: bool,
    escape: bool,
)
    requires
        0 <= i <= t.len(),
    ensures
        i <= count_braces(t, i, depth, in_string, escape).0 <= t.len(),
    decreases t.len() - i,
{
    if i < t.len() {
        if in_string {
            lemma_count_braces_bounds(t, i + 1, depth, true, false);
            lemma_count_braces_bounds(t, i + 1, depth, true, true);
            lemma_count_braces_bounds(t, i + 1, depth, t[i] != '"', false);
        } else {
            lemma_count_braces_bounds(t, i + 1, depth, true, false);
            lemma_count_braces_bounds(t, i + 1, depth + 1, false, false);
            lemma_count_braces_bounds(t, i + 1, depth - 1, false, false);
            lemma_count_braces_bounds(t, i + 1, depth, false, false);
        }
    }
}

/// The run of closing brackets stays inside the text.
pub proof fn lemma_closing_brackets_bounds(t: Seq<char>, i: int, most: nat)
    requires
        0 <= i <= t.len(),
    ensures
        closing_brackets(t, i, most) <= most,
        i + closing_brackets(t, i, most) <= t.len(),
    decreases most,
{
    if most > 0 && i < t.len() && t[i] == ']' {
        lemma_closing_brackets_bounds(t, i + 1, (most - 1) as nat);
    }
}

/// Both prefixes take twelve characters.
pub proof fn lemma_prefixes()
    ensures
        upper_prefix().len() == 12,
        lower_prefix().len() == 12,
        upper_prefix()[2] == 'M',
        lower_prefix()[2] == 'm',
        upper_prefix()[0] == '[',
        lower_prefix()[0] == '[',
{
    reveal_strlit("[[MEMORY_OP:");
    reveal_strlit("[[memory_op:");
}

/// What [`first_match`] says of the places that it passes.
pub proof fn lemma_first_match(t: Seq<char>, p: Seq<char>, from: int)
    requires
        0 <= from,
        p.len() > 0,
    ensures
        match first_match(t, p, from) {
            Some(i) => {
                &&& from <= i
                &&& matches_at(t, p, i)
                &&& forall|j: int| from <= j < i ==> !matches_at(t, p, j)
            },
            None => forall|j: int| from <= j ==> !matches_at(t, p, j),
        },
    decreases t.len() - from,
{
    if from + p.len() <= t.len() && !matches_at(t, p, from) {
        lemma_first_match(t, p, from + 1);
    }
}

/// [`first_match`], when the first place is already known.
pub proof fn lemma_first_match_is(t: Seq<char>, p: Seq<char>, from: int, i: int)
    requires
        0 <= from <= i,
        p.len() > 0,
        matches_at(t, p, i),
        forall|j: int| from <= j < i ==> !matches_at(t, p, j),
    ensures
        first_match(t, p, from) == Some(i),
    decreases i - from,
{
    if from < i {
        assert(!matches_at(t, p, from));
        lemma_first_match_is(t, p, from + 1, i);
    }
}

/// The first place at or after `from` where `p` stands in `t`.
pub fn search(t: &Vec<char>, p: &Vec<char>, from: usize) -> (r: Option<usize>)
    requires
        p@.len() > 0,
    ensures
        match r {
            Some(i) => first_match(t@, p@, from as int) == Some(i as int) && from <= i && i
                + p@.len() <= t@.len(),
            None => first_match(t@, p@, from as int) is None,
        },
{
    let r = crate::text::find_from(t, p, from);
    proof {
        match r {
            Some(i) => {
                lemma_first_match_is(t@, p@, from as int, i as int);
            },
            None => {
                lemma_first_match(t@, p@, from as int);
            },
        }
    }
    r
}

/// The first place at or after `from` that holds `c`.
pub fn search_char(t: &Vec<char>, c: char, from: usize) -> (r: Option<usize>)
    ensures
        match r {
            Some(i) => first_char(t@, c, from as int) == Some(i as int) && from <= i < t@.len(),
            None => first_char(t@, c, from as int) is None,
        },
{
    let mut i: usize = from;
    while i < t.len()
        invariant
            from <= i,
            first_char(t@, c, i as int) == first_char(t@, c, from as int),
        decreases t.len() - i,
    {
        if t[i] == c {
            return Some(i);
        }
        i += 1;
    }
    None
}

/// The first place at or after `from` that holds neither a blank nor a tab.
pub fn pass_blanks(t: &Vec<char>, from: usize) -> (r: usize)
    requires
        from <= t@.len(),
    ensures
        r == skip_blanks(t@, from as int),
        from <= r <= t@.len(),
{
    let mut i: usize = from;
    while i < t.len() && (t[i] == ' ' || t[i] == '\t')
        invariant
            from <= i <= t@.len(),
            skip_blanks(t@, i as int) == skip_blanks(t@, from as int),
        decreases t.len() - i,
    {
        i += 1;
    }
    i
}

/// Counts braces from `from` on, those inside JSON strings left aside.
pub fn scan_braces(t: &Vec<char>, from: usize) -> (r: (usize, i128))
    requires
        from <= t@.len(),
    ensures
        r.0 == count_braces(t@, from as int, 0, false, false).0,
        r.1 == count_braces(t@, from as int, 0, false, false).1,
        from <= r.0 <= t@.len(),
{
    let ghost want = count_braces(t@, from as int, 0, false, false);
    let mut i: usize = from;
    let mut depth: i128 = 0;
    let mut in_string = false;
    let mut escape = false;
    while i < t.len()
        invariant
            from <= i <= t@.len(),
            -(i as int) <= depth <= i,
            !in_string ==> !escape,
            want == count_braces(t@, from as int, 0, false, false),
            want == count_braces(t@, i as int, depth as int, in_string, escape),
        decreases t.len() - i,
    {
        let c = t[i];
        if in_string {
            if escape {
                escape = false;
            } else if c == '\\' {
                escape = true;
            } else if c == '"' {
                in_string = false;
            }
        } else if c == '"' {
            in_string = true;
        } else if c == '{' {
            depth = depth + 1;
        } else if c == '}' {
            depth = depth - 1;
            if depth == 0 {
                return (i + 1, 0);
            }
        }
        i += 1;
    }
    (i, depth)
}

/// How many closing brackets follow from `from` on, at most `most`.
pub fn count_closing(t: &Vec<char>, from: usize, most: usize) -> (r: usize)
    requires
        from <= t@.len(),
    ensures
        r == closing_brackets(t@, from as int, most as nat),
        from + r <= t@.len(),
{
    let ghost want = closing_brackets(t@, from as int, most as nat);
    let mut k: usize = 0;
    while k < most && k < t.len() - from && t[from + k] == ']'
        invariant
            from <= t@.len(),
            k <= most,
            k <= t@.len() - from,
            want == k + closing_brackets(t@, from + k, (most - k) as nat),
        decreases most - k,
    {
        k += 1;
    }
    k
}

} // verus!
