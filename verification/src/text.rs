//! Text primitives: everything above this module reasons about a string as
//! the sequence of its characters.

use vstd::prelude::*;
use vstd::utf8::{encode_utf8, is_ascii_chars};

verus! {

/// `String::push` appends one character at the end.
pub assume_specification[ String::push ](s: &mut String, ch: char)
    ensures
        final(s)@ == old(s)@.push(ch),
;

/// The characters of `s`, in order.
pub fn chars_of(s: &str) -> (v: Vec<char>)
    ensures
        v@ == s@,
{
    let mut v: Vec<char> = Vec::new();
    for c in it: s.chars()
        invariant
            it.seq() == s@,
            v@ == s@.take(it.index()),
    {
        proof {
            assert(s@.take(it.index() + 1) == s@.take(it.index()).push(s@[it.index()]));
        }
        v.push(c);
    }
    proof {
        assert(s@.take(s@.len() as int) == s@);
    }
    v
}

/// The string made of the characters of `v`.
pub fn string_of(v: &Vec<char>) -> (s: String)
    ensures
        s@ == v@,
{
    let mut s = String::new();
    let mut i: usize = 0;
    while i < v.len()
        invariant
            i <= v.len(),
            s@ == v@.take(i as int),
        decreases v.len() - i,
    {
        s.push(v[i]);
        proof {
            assert(v@.take(i + 1) == v@.take(i as int).push(v@[i as int]));
        }
        i += 1;
    }
    proof {
        assert(v@.take(v@.len() as int) == v@);
    }
    s
}

/// The string made of the characters of `v` from `from` up to `to`.
pub fn slice_of(v: &Vec<char>, from: usize, to: usize) -> (s: String)
    requires
        from <= to <= v@.len(),
    ensures
        s@ == v@.subrange(from as int, to as int),
{
    let mut s = String::new();
    let mut i: usize = from;
    while i < to
        invariant
            from <= i <= to <= v@.len(),
            s@ == v@.subrange(from as int, i as int),
        decreases to - i,
    {
        s.push(v[i]);
        proof {
            assert(v@.subrange(from as int, i + 1) == v@.subrange(from as int, i as int).push(
                v@[i as int],
            ));
        }
        i += 1;
    }
    s
}

/// Whether two strings hold the same characters.
pub fn str_eq(a: &str, b: &str) -> (r: bool)
    ensures
        r == (a@ == b@),
{
    let x = chars_of(a);
    let y = chars_of(b);
    if x.len() != y.len() {
        return false;
    }
    let mut i: usize = 0;
    while i < x.len()
        invariant
            i <= x.len(),
            x@ == a@,
            y@ == b@,
            x@.len() == y@.len(),
            x@.take(i as int) == y@.take(i as int),
        decreases x.len() - i,
    {
        if x[i] != y[i] {
            proof {
                assert(a@[i as int] != b@[i as int]);
            }
            return false;
        }
        proof {
            assert(x@.take(i + 1) == x@.take(i as int).push(x@[i as int]));
            assert(y@.take(i + 1) == y@.take(i as int).push(y@[i as int]));
        }
        i += 1;
    }
    proof {
        assert(x@.take(x@.len() as int) == x@);
        assert(y@.take(y@.len() as int) == y@);
    }
    true
}


// ---------------------------------------------------------------- pieces

/// Whether `needle` stands in `hay` at position `i`.
pub open spec fn matches_at(hay: Seq<char>, needle: Seq<char>, i: int) -> bool {
    0 <= i && i + needle.len() <= hay.len() && hay.subrange(i, i + needle.len()) == needle
}

/// Whether `needle` occurs somewhere in `hay`.
pub open spec fn occurs(hay: Seq<char>, needle: Seq<char>) -> bool {
    exists|i: int| matches_at(hay, needle, i)
}

/// Whether `hay` begins with `prefix`.
pub open spec fn begins(hay: Seq<char>, prefix: Seq<char>) -> bool {
    matches_at(hay, prefix, 0)
}

/// Whether `needle` stands in `hay` at position `i`.
pub fn match_at(hay: &Vec<char>, needle: &Vec<char>, i: usize) -> (r: bool)
    ensures
        r == matches_at(hay@, needle@, i as int),
{
    if i > hay.len() || needle.len() > hay.len() - i {
        return false;
    }
    let mut k: usize = 0;
    while k < needle.len()
        invariant
            k <= needle@.len(),
            i + needle@.len() <= hay.len(),
            forall|j: int| 0 <= j < k ==> hay@[i + j] == needle@[j],
        decreases needle.len() - k,
    {
        if hay[i + k] != needle[k] {
            proof {
                assert(hay@.subrange(i as int, i + needle@.len())[k as int] != needle@[k as int]);
            }
            return false;
        }
        k += 1;
    }
    proof {
        assert(hay@.subrange(i as int, i + needle@.len()) =~= needle@);
    }
    true
}

/// The first position at or after `from` where `needle` stands in `hay`.
pub fn find_from(hay: &Vec<char>, needle: &Vec<char>, from: usize) -> (r: Option<usize>)
    ensures
        match r {
            Some(i) => {
                &&& from <= i
                &&& matches_at(hay@, needle@, i as int)
                &&& forall|j: int| from <= j < i ==> !matches_at(hay@, needle@, j)
            },
            None => forall|j: int| from <= j ==> !matches_at(hay@, needle@, j),
        },
{
    let mut i: usize = from;
    while i <= hay.len()
        invariant
            from <= i,
            i <= hay@.len() + 1 || i == from,
            forall|j: int| from <= j < i ==> !matches_at(hay@, needle@, j),
        decreases hay.len() + 1 - i,
    {
        if match_at(hay, needle, i) {
            return Some(i);
        }
        if i == hay.len() {
            return None;
        }
        i += 1;
    }
    None
}

/// Whether `needle` occurs in `hay`.
pub fn contains_str(hay: &str, needle: &str) -> (r: bool)
    ensures
        r == occurs(hay@, needle@),
{
    let h = chars_of(hay);
    let n = chars_of(needle);
    match find_from(&h, &n, 0) {
        Some(i) => {
            proof {
                assert(matches_at(hay@, needle@, i as int));
            }
            true
        },
        None => false,
    }
}

/// Whether `hay` begins with `prefix`.
pub fn starts_with(hay: &str, prefix: &str) -> (r: bool)
    ensures
        r == begins(hay@, prefix@),
{
    let h = chars_of(hay);
    let n = chars_of(prefix);
    match_at(&h, &n, 0)
}

// -------------------------------------------------------------------- order

/// Whether `a` stands before `b` in the order of code points, character by
/// character.
pub open spec fn lex_lt(a: Seq<char>, b: Seq<char>) -> bool
    decreases a.len(),
{
    if b.len() == 0 {
        false
    } else if a.len() == 0 {
        true
    } else if a[0] != b[0] {
        a[0] < b[0]
    } else {
        lex_lt(a.skip(1), b.skip(1))
    }
}

/// The order is transitive.
pub proof fn lemma_lex_trans(a: Seq<char>, b: Seq<char>, c: Seq<char>)
    requires
        lex_lt(a, b),
        lex_lt(b, c),
    ensures
        lex_lt(a, c),
    decreases a.len(),
{
    if a.len() > 0 && a[0] == b[0] && b[0] == c[0] {
        lemma_lex_trans(a.skip(1), b.skip(1), c.skip(1));
    }
}

/// Of two different texts one stands before the other, and not both.
pub proof fn lemma_lex_total(a: Seq<char>, b: Seq<char>)
    ensures
        a == b || lex_lt(a, b) || lex_lt(b, a),
        !(lex_lt(a, b) && lex_lt(b, a)),
        lex_lt(a, b) ==> a != b,
    decreases a.len(),
{
    if a.len() == 0 || b.len() == 0 {
        if a.len() == 0 && b.len() == 0 {
            assert(a =~= b);
        }
    } else if a[0] == b[0] {
        lemma_lex_total(a.skip(1), b.skip(1));
        if a.skip(1) == b.skip(1) {
            assert(a =~= seq![a[0]] + a.skip(1));
            assert(b =~= seq![b[0]] + b.skip(1));
        }
    }
}

/// Whether `a` stands before `b`.
pub fn str_lt(a: &str, b: &str) -> (r: bool)
    ensures
        r == lex_lt(a@, b@),
{
    let x = chars_of(a);
    let y = chars_of(b);
    let mut i: usize = 0;
    proof {
        assert(x@.skip(0) =~= x@);
        assert(y@.skip(0) =~= y@);
    }
    while i < x.len() && i < y.len() && x[i] == y[i]
        invariant
            i <= x@.len(),
            i <= y@.len(),
            lex_lt(x@.skip(i as int), y@.skip(i as int)) == lex_lt(a@, b@),
        decreases x.len() - i,
    {
        proof {
            assert(x@.skip(i as int).skip(1) =~= x@.skip(i + 1));
            assert(y@.skip(i as int).skip(1) =~= y@.skip(i + 1));
        }
        i += 1;
    }
    if i == y.len() {
        false
    } else if i == x.len() {
        true
    } else {
        x[i] < y[i]
    }
}

/// Whether every two strings of the list stand in strictly increasing order.
pub open spec fn strictly_sorted(v: Seq<Seq<char>>) -> bool {
    forall|i: int, j: int| 0 <= i < j < v.len() ==> lex_lt(v[i], v[j])
}

/// Puts `s` at its place in a sorted list, unless it is already there.
pub fn insert_sorted(v: &mut Vec<String>, s: String)
    requires
        strictly_sorted(views(old(v)@)),
    ensures
        strictly_sorted(views(final(v)@)),
        forall|x: Seq<char>|
            views(final(v)@).contains(x) <==> views(old(v)@).contains(x) || x == s@,
{
    let ghost before = views(v@);
    let ghost word = s@;
    let mut i: usize = 0;
    while i < v.len() && str_lt(v[i].as_str(), s.as_str())
        invariant
            i <= v@.len(),
            before == views(v@),
            forall|j: int| 0 <= j < i ==> lex_lt(before[j], s@),
        decreases v.len() - i,
    {
        i += 1;
    }
    if i < v.len() && str_eq(v[i].as_str(), s.as_str()) {
        proof {
            assert(before[i as int] == word);
            assert(before.contains(word));
        }
        return;
    }
    v.insert(i, s);
    proof {
        let after = views(v@);
        assert(after =~= before.insert(i as int, word));
        assert forall|a: int, b: int| 0 <= a < b < after.len() implies lex_lt(after[a], after[b]) by {
            if i < before.len() {
                lemma_lex_total(before[i as int], word);
            }
            if a < i && b > i {
                assert(lex_lt(before[a], before[b - 1]));
            } else if a == i {
                if b - 1 > i {
                    assert(lex_lt(before[i as int], before[b - 1]));
                    lemma_lex_trans(word, before[i as int], before[b - 1]);
                }
            } else if a > i {
                assert(lex_lt(before[a - 1], before[b - 1]));
            }
        }
        assert forall|x: Seq<char>| after.contains(x) <==> before.contains(x) || x == word by {
            if after.contains(x) {
                let k = choose|k: int| 0 <= k < after.len() && after[k] == x;
                if k < i {
                    assert(before[k] == x);
                } else if k > i {
                    assert(before[k - 1] == x);
                }
            }
            if before.contains(x) {
                let k = choose|k: int| 0 <= k < before.len() && before[k] == x;
                if k < i {
                    assert(after[k] == x);
                } else {
                    assert(after[k + 1] == x);
                }
            }
            if x == word {
                assert(after[i as int] == x);
            }
        }
    }
}

/// Whether the list holds a string with the same characters as `s`.
pub fn list_has(v: &Vec<String>, s: &str) -> (r: bool)
    ensures
        r == views(v@).contains(s@),
{
    let mut i: usize = 0;
    while i < v.len()
        invariant
            i <= v@.len(),
            forall|j: int| 0 <= j < i ==> views(v@)[j] != s@,
        decreases v.len() - i,
    {
        if str_eq(v[i].as_str(), s) {
            proof {
                assert(views(v@)[i as int] == s@);
            }
            return true;
        }
        i += 1;
    }
    false
}

/// Whether `c` is an ASCII letter, an ASCII digit or an underscore.
pub open spec fn name_char(c: char) -> bool {
    ||| 'a' <= c <= 'z'
    ||| 'A' <= c <= 'Z'
    ||| '0' <= c <= '9'
    ||| c == '_'
}

/// Whether `s` consists of ASCII letters, ASCII digits and underscores alone.
pub open spec fn is_name(s: Seq<char>) -> bool {
    forall|i: int| 0 <= i < s.len() ==> name_char(#[trigger] s[i])
}

/// Whether `s` consists of ASCII letters, ASCII digits and underscores alone.
pub fn all_name_chars(s: &str) -> (r: bool)
    ensures
        r == is_name(s@),
{
    let v = chars_of(s);
    let mut i: usize = 0;
    while i < v.len()
        invariant
            i <= v@.len(),
            v@ == s@,
            forall|j: int| 0 <= j < i ==> name_char(#[trigger] s@[j]),
        decreases v.len() - i,
    {
        let c = v[i];
        if !(('a' <= c && c <= 'z') || ('A' <= c && c <= 'Z') || ('0' <= c && c <= '9') || c
            == '_') {
            proof {
                assert(!name_char(s@[i as int]));
            }
            return false;
        }
        i += 1;
    }
    true
}

// ------------------------------------------------------------- white space

/// The characters with the Unicode property `White_Space`.
pub open spec fn white_space(c: char) -> bool {
    ||| 0x9 <= c as u32 <= 0xD
    ||| c as u32 == 0x20
    ||| c as u32 == 0x85
    ||| c as u32 == 0xA0
    ||| c as u32 == 0x1680
    ||| 0x2000 <= c as u32 <= 0x200A
    ||| c as u32 == 0x2028
    ||| c as u32 == 0x2029
    ||| c as u32 == 0x202F
    ||| c as u32 == 0x205F
    ||| c as u32 == 0x3000
}

/// Whether `c` is white space.
pub fn is_white_space(c: char) -> (r: bool)
    ensures
        r == white_space(c),
{
    let u: u32 = c as u32;
    (0x9 <= u && u <= 0xD) || u == 0x20 || u == 0x85 || u == 0xA0 || u == 0x1680 || (0x2000 <= u
        && u <= 0x200A) || u == 0x2028 || u == 0x2029 || u == 0x202F || u == 0x205F || u == 0x3000
}

/// `s` without its leading white space.
pub open spec fn trimmed_start(s: Seq<char>) -> Seq<char>
    decreases s.len(),
{
    if s.len() > 0 && white_space(s[0]) {
        trimmed_start(s.skip(1))
    } else {
        s
    }
}

/// `s` without its trailing white space.
pub open spec fn trimmed_end(s: Seq<char>) -> Seq<char>
    decreases s.len(),
{
    if s.len() > 0 && white_space(s.last()) {
        trimmed_end(s.drop_last())
    } else {
        s
    }
}

/// `s` without the white space around it.
pub open spec fn trimmed(s: Seq<char>) -> Seq<char> {
    trimmed_end(trimmed_start(s))
}

/// `s` without its leading white space.
pub fn trim_start(s: &str) -> (r: String)
    ensures
        r@ == trimmed_start(s@),
{
    let v = chars_of(s);
    let mut i: usize = 0;
    proof {
        assert(v@.skip(0) == v@);
    }
    while i < v.len() && is_white_space(v[i])
        invariant
            i <= v@.len(),
            v@ == s@,
            trimmed_start(v@.skip(i as int)) == trimmed_start(s@),
        decreases v.len() - i,
    {
        proof {
            assert(v@.skip(i as int).skip(1) == v@.skip(i + 1));
        }
        i += 1;
    }
    proof {
        assert(v@.skip(i as int) == v@.subrange(i as int, v@.len() as int));
    }
    slice_of(&v, i, v.len())
}

/// `s` without the white space around it.
pub fn trim(s: &str) -> (r: String)
    ensures
        r@ == trimmed(s@),
{
    let head = trim_start(s);
    let v = chars_of(head.as_str());
    let mut n: usize = v.len();
    proof {
        assert(v@.take(n as int) == v@);
    }
    while n > 0 && is_white_space(v[n - 1])
        invariant
            n <= v@.len(),
            v@ == trimmed_start(s@),
            trimmed_end(v@.take(n as int)) == trimmed(s@),
        decreases n,
    {
        proof {
            assert(v@.take(n as int).drop_last() == v@.take(n - 1));
            assert(v@.take(n as int).last() == v@[n - 1]);
        }
        n -= 1;
    }
    proof {
        assert(v@.take(n as int) == v@.subrange(0, n as int));
        if n > 0 {
            assert(v@.take(n as int).last() == v@[n - 1]);
        }
    }
    slice_of(&v, 0, n)
}

/// The first line of `s`, without its line ending.
pub open spec fn first_line(s: Seq<char>) -> Seq<char>
    decreases s.len(),
{
    first_line_from(s, 0)
}

/// The first line of `s`, when the characters before `i` hold no line feed.
pub open spec fn first_line_from(s: Seq<char>, i: int) -> Seq<char>
    decreases s.len() - i,
{
    if i >= s.len() {
        s
    } else if s[i] != '\n' {
        first_line_from(s, i + 1)
    } else if i > 0 && s[i - 1] == '\r' {
        s.take(i - 1)
    } else {
        s.take(i)
    }
}

/// The first line of `s`, without its line ending.
pub fn line_one(s: &str) -> (r: String)
    ensures
        r@ == first_line(s@),
{
    let v = chars_of(s);
    let mut i: usize = 0;
    while i < v.len() && v[i] != '\n'
        invariant
            i <= v@.len(),
            v@ == s@,
            first_line_from(v@, i as int) == first_line(s@),
        decreases v.len() - i,
    {
        i += 1;
    }
    proof {
        assert(v@.subrange(0, v@.len() as int) == v@);
        assert(v@.subrange(0, i as int) == v@.take(i as int));
    }
    if i == v.len() {
        slice_of(&v, 0, v.len())
    } else if i > 0 && v[i - 1] == '\r' {
        proof {
            assert(v@.subrange(0, i - 1) == v@.take(i - 1));
        }
        slice_of(&v, 0, i - 1)
    } else {
        slice_of(&v, 0, i)
    }
}

// ---------------------------------------------------------------- splitting

/// The pieces of `s` between the occurrences of `c`; always at least one.
pub open spec fn split_on(s: Seq<char>, c: char) -> Seq<Seq<char>>
    decreases s.len(),
{
    if s.len() == 0 {
        seq![Seq::empty()]
    } else {
        let before = split_on(s.drop_last(), c);
        if s.last() == c {
            before.push(Seq::empty())
        } else {
            before.update(before.len() - 1, before.last().push(s.last()))
        }
    }
}

proof fn lemma_split_on_len(s: Seq<char>, c: char)
    ensures
        split_on(s, c).len() >= 1,
    decreases s.len(),
{
    if s.len() > 0 {
        lemma_split_on_len(s.drop_last(), c);
    }
}

/// The pieces of `s` between the occurrences of `c`; always at least one.
pub fn split_char(s: &str, c: char) -> (r: Vec<String>)
    ensures
        views(r@) == split_on(s@, c),
        r@.len() >= 1,
{
    let v = chars_of(s);
    let mut done: Vec<String> = Vec::new();
    let mut piece = String::new();
    let mut i: usize = 0;
    proof {
        assert(v@.take(0) == Seq::<char>::empty());
        assert(views(done@).push(piece@) =~= split_on(v@.take(0), c));
    }
    while i < v.len()
        invariant
            i <= v@.len(),
            v@ == s@,
            views(done@).push(piece@) == split_on(v@.take(i as int), c),
        decreases v.len() - i,
    {
        let ghost before = views(done@).push(piece@);
        let ghost old_done = done@;
        let ghost old_piece = piece@;
        proof {
            assert(v@.take(i + 1).drop_last() == v@.take(i as int));
            assert(v@.take(i + 1).last() == v@[i as int]);
        }
        if v[i] == c {
            done.push(piece);
            piece = String::new();
            proof {
                assert(views(done@) =~= views(old_done).push(old_piece));
                assert(views(done@).push(piece@) =~= before.push(Seq::<char>::empty()));
            }
        } else {
            piece.push(v[i]);
            proof {
                assert(views(done@).push(piece@) =~= before.update(
                    before.len() - 1,
                    before.last().push(v@[i as int]),
                ));
            }
        }
        i += 1;
    }
    let ghost old_done = done@;
    let ghost old_piece = piece@;
    done.push(piece);
    proof {
        assert(v@.take(v@.len() as int) == v@);
        assert(views(done@) =~= views(old_done).push(old_piece));
    }
    done
}

// ------------------------------------------------------------------ joining

/// What an optional text holds.
pub open spec fn opt_view(s: Option<String>) -> Option<Seq<char>> {
    match s {
        Some(t) => Some(t@),
        None => None,
    }
}

/// The contents of a list of strings.
pub open spec fn views(v: Seq<String>) -> Seq<Seq<char>> {
    v.map_values(|s: String| s@)
}

/// The parts in order, with `sep` between each two of them.
pub open spec fn joined(parts: Seq<Seq<char>>, sep: Seq<char>) -> Seq<char>
    decreases parts.len(),
{
    if parts.len() == 0 {
        Seq::empty()
    } else if parts.len() == 1 {
        parts[0]
    } else {
        joined(parts.drop_last(), sep) + sep + parts.last()
    }
}

/// The parts from `from` on, joined by `sep`.
pub fn join_from(parts: &Vec<String>, from: usize, sep: &str) -> (r: String)
    requires
        from <= parts@.len(),
    ensures
        r@ == joined(views(parts@.skip(from as int)), sep@),
{
    let ghost all = views(parts@.skip(from as int));
    let mut out = String::new();
    let mut i: usize = from;
    while i < parts.len()
        invariant
            from <= i <= parts@.len(),
            all == views(parts@.skip(from as int)),
            out@ == joined(all.take(i - from), sep@),
        decreases parts.len() - i,
    {
        let ghost k = i - from;
        if i > from {
            out.append(sep);
        }
        out.append(parts[i].as_str());
        proof {
            assert(all.take(k + 1).drop_last() == all.take(k));
            assert(all.take(k + 1).last() == parts@[i as int]@);
        }
        i += 1;
    }
    proof {
        assert(all.take(all.len() as int) == all);
    }
    out
}

/// The parts joined by `sep`.
pub fn join(parts: &Vec<String>, sep: &str) -> (r: String)
    ensures
        r@ == joined(views(parts@), sep@),
{
    proof {
        assert(parts@.skip(0) == parts@);
    }
    join_from(parts, 0, sep)
}

// ------------------------------------------------------------------ numbers

/// The character of a decimal digit.
pub open spec fn digit(d: nat) -> char {
    (('0' as u32) + d) as char
}

/// `n` in decimal.
pub open spec fn decimal(n: nat) -> Seq<char>
    decreases n,
{
    if n < 10 {
        seq![digit(n)]
    } else {
        decimal(n / 10).push(digit(n % 10))
    }
}

/// `n` in decimal, with a leading minus sign below zero.
pub open spec fn decimal_int(n: int) -> Seq<char> {
    if n < 0 {
        seq!['-'] + decimal((-n) as nat)
    } else {
        decimal(n as nat)
    }
}

/// The character of the digit `d`.
fn digit_char(d: u64) -> (c: char)
    requires
        d < 10,
    ensures
        c == digit(d as nat),
{
    match d {
        0 => '0',
        1 => '1',
        2 => '2',
        3 => '3',
        4 => '4',
        5 => '5',
        6 => '6',
        7 => '7',
        8 => '8',
        _ => '9',
    }
}

/// Appends `n` in decimal.
pub fn push_decimal(s: &mut String, n: u64)
    ensures
        final(s)@ == old(s)@ + decimal(n as nat),
    decreases n,
{
    let ghost before = s@;
    if n < 10 {
        s.push(digit_char(n));
        proof {
            assert(before.push(digit(n as nat)) == before + decimal(n as nat));
        }
    } else {
        push_decimal(s, n / 10);
        s.push(digit_char(n % 10));
        proof {
            assert((before + decimal((n / 10) as nat)).push(digit((n % 10) as nat)) == before
                + decimal(n as nat));
        }
    }
}

/// `n` in decimal.
pub fn show_u64(n: u64) -> (r: String)
    ensures
        r@ == decimal(n as nat),
{
    let mut s = String::new();
    push_decimal(&mut s, n);
    proof {
        assert(Seq::<char>::empty() + decimal(n as nat) == decimal(n as nat));
    }
    s
}

/// `n` in decimal, with a leading minus sign below zero.
pub fn show_i64(n: i64) -> (r: String)
    ensures
        r@ == decimal_int(n as int),
{
    let mut s = String::new();
    if n < 0 {
        s.push('-');
        let m: u64 = (-(n + 1)) as u64 + 1;
        push_decimal(&mut s, m);
        proof {
            assert(Seq::<char>::empty().push('-') + decimal(m as nat) == decimal_int(n as int));
        }
    } else {
        push_decimal(&mut s, n as u64);
        proof {
            assert(Seq::<char>::empty() + decimal(n as nat) == decimal_int(n as int));
        }
    }
    s
}

/// Whether `c` is one of `0` to `9`.
pub open spec fn is_digit(c: char) -> bool {
    '0' <= c <= '9'
}

/// The number that a run of decimal digits stands for.
pub open spec fn digits_value(s: Seq<char>) -> nat
    decreases s.len(),
{
    if s.len() == 0 {
        0
    } else {
        digits_value(s.drop_last()) * 10 + (s.last() as u32 - '0' as u32) as nat
    }
}

/// The number that a run of decimal digits denotes, at least one of them and of
/// a value that fits in 64 bits.
pub open spec fn digits_u64(body: Seq<char>) -> Option<u64> {
    if body.len() > 0 && (forall|i: int| 0 <= i < body.len() ==> is_digit(#[trigger] body[i]))
        && digits_value(body) <= u64::MAX {
        Some(digits_value(body) as u64)
    } else {
        None
    }
}

/// The number that `s` denotes: a run of digits behind at most one plus sign.
pub open spec fn parsed_u64(s: Seq<char>) -> Option<u64> {
    if s.len() > 0 && s[0] == '+' {
        digits_u64(s.skip(1))
    } else {
        digits_u64(s)
    }
}

/// A longer run of digits never denotes a smaller number.
proof fn lemma_digits_grow(s: Seq<char>, n: int)
    requires
        0 <= n <= s.len(),
        forall|i: int| 0 <= i < s.len() ==> is_digit(#[trigger] s[i]),
    ensures
        digits_value(s.take(n)) <= digits_value(s),
    decreases s.len() - n,
{
    if n == s.len() {
        assert(s.take(n) == s);
    } else {
        lemma_digits_grow(s, n + 1);
        assert(s.take(n + 1).drop_last() == s.take(n));
        assert(s.take(n + 1).last() == s[n]);
    }
}

/// Reads an unsigned number: decimal digits with at most one leading plus sign.
pub fn parse_u64(s: &str) -> (r: Option<u64>)
    ensures
        r == parsed_u64(s@),
{
    let v = chars_of(s);
    let start: usize = if v.len() > 0 && v[0] == '+' {
        1
    } else {
        0
    };
    let ghost body = if s@.len() > 0 && s@[0] == '+' {
        s@.skip(1)
    } else {
        s@
    };
    if start == v.len() {
        return None;
    }
    let mut acc: u64 = 0;
    let mut i: usize = start;
    proof {
        assert(body.take(0) == Seq::<char>::empty());
    }
    while i < v.len()
        invariant
            start <= i <= v@.len(),
            v@ == s@,
            body.len() == v@.len() - start,
            forall|j: int| 0 <= j < body.len() ==> body[j] == v@[start + j],
            forall|j: int| 0 <= j < i - start ==> is_digit(#[trigger] body[j]),
            acc == digits_value(body.take(i - start)),
            parsed_u64(s@) == digits_u64(body),
        decreases v.len() - i,
    {
        let c = v[i];
        let ghost k = i - start;
        if !('0' <= c && c <= '9') {
            proof {
                assert(!is_digit(body[k]));
            }
            return None;
        }
        let d: u64 = (c as u32 - '0' as u32) as u64;
        proof {
            assert(body.take(k + 1).drop_last() == body.take(k));
            assert(body.take(k + 1).last() == c);
            assert(digits_value(body.take(k + 1)) == acc * 10 + d);
            if forall|j: int| 0 <= j < body.len() ==> is_digit(#[trigger] body[j]) {
                lemma_digits_grow(body, k + 1);
            }
        }
        if acc > u64::MAX / 10 {
            return None;
        }
        let ten: u64 = acc * 10;
        if d > u64::MAX - ten {
            return None;
        }
        acc = ten + d;
        i += 1;
    }
    proof {
        assert(body.take(body.len() as int) == body);
    }
    Some(acc)
}

/// The signed number that `s` denotes: a run of digits behind at most one sign.
pub open spec fn parsed_i64(s: Seq<char>) -> Option<i64> {
    if s.len() > 0 && s[0] == '-' {
        match digits_u64(s.skip(1)) {
            Some(n) => if n <= i64::MAX + 1 {
                Some((-n) as i64)
            } else {
                None
            },
            None => None,
        }
    } else {
        match parsed_u64(s) {
            Some(n) => if n <= i64::MAX {
                Some(n as i64)
            } else {
                None
            },
            None => None,
        }
    }
}

/// Reads a signed number: decimal digits with at most one leading sign.
pub fn parse_i64(s: &str) -> (r: Option<i64>)
    ensures
        r == parsed_i64(s@),
{
    let v = chars_of(s);
    if v.len() > 0 && v[0] == '-' {
        proof {
            assert(s@.skip(1) =~= v@.subrange(1, v@.len() as int));
        }
        if v.len() > 1 && v[1] == '+' {
            proof {
                assert(s@.skip(1)[0] == '+');
                assert(!is_digit(s@.skip(1)[0]));
            }
            return None;
        }
        let rest = slice_of(&v, 1, v.len());
        match parse_u64(rest.as_str()) {
            Some(n) => if n <= i64::MAX as u64 {
                Some(-(n as i64))
            } else if n == i64::MAX as u64 + 1 {
                Some(i64::MIN)
            } else {
                None
            },
            None => None,
        }
    } else {
        match parse_u64(s) {
            Some(n) => if n <= i64::MAX as u64 {
                Some(n as i64)
            } else {
                None
            },
            None => None,
        }
    }
}

/// `s` filled up with spaces to `width` characters.
pub open spec fn padded_right(s: Seq<char>, width: nat) -> Seq<char>
    decreases width - s.len(),
{
    if s.len() >= width {
        s
    } else {
        padded_right(s.push(' '), width)
    }
}

/// `s` behind the spaces that fill it up to `width` characters.
pub open spec fn padded_left(s: Seq<char>, width: nat) -> Seq<char>
    decreases width - s.len(),
{
    if s.len() >= width {
        s
    } else {
        padded_left(seq![' '] + s, width)
    }
}

/// `s` filled up with spaces to `width` characters.
pub fn pad_right(s: &str, width: usize) -> (r: String)
    ensures
        r@ == padded_right(s@, width as nat),
{
    let mut out: String = s.to_owned();
    let mut n: usize = chars_of(s).len();
    while n < width
        invariant
            n == out@.len(),
            padded_right(out@, width as nat) == padded_right(s@, width as nat),
        decreases width - n,
    {
        out.push(' ');
        n += 1;
    }
    out
}

/// `s` behind the spaces that fill it up to `width` characters.
pub fn pad_left(s: &str, width: usize) -> (r: String)
    ensures
        r@ == padded_left(s@, width as nat),
{
    let n: usize = chars_of(s).len();
    let mut head = String::new();
    let mut i: usize = n;
    proof {
        assert(head@ + s@ =~= s@);
    }
    while i < width
        invariant
            n == s@.len(),
            n <= i,
            i == head@.len() + s@.len(),
            forall|j: int| 0 <= j < head@.len() ==> head@[j] == ' ',
            padded_left(head@ + s@, width as nat) == padded_left(s@, width as nat),
        decreases width - i,
    {
        let ghost before = head@;
        head.push(' ');
        proof {
            assert(seq![' '] + (before + s@) =~= head@ + s@);
        }
        i += 1;
    }
    head.append(s);
    head
}

// -------------------------------------------------------------- lower case

/// What `str::to_lowercase` makes of a text.
pub uninterp spec fn lowercase(s: Seq<char>) -> Seq<char>;

/// The lower-case form of an ASCII letter; any other character as it is.
pub open spec fn ascii_lower(c: char) -> char {
    if 'A' <= c <= 'Z' {
        (c as u32 + 32) as char
    } else {
        c
    }
}

/// `str::to_lowercase`: the result depends on the text alone, and on ASCII text
/// it replaces each upper-case letter by its lower-case form.
#[verifier::external_body]
pub(crate) fn to_lower(s: &str) -> (r: String)
    ensures
        r@ == lowercase(s@),
        is_ascii_chars(s@) ==> r@ == s@.map_values(|c: char| ascii_lower(c)),
{
    s.to_lowercase()
}

// -------------------------------------------------------------------- words

/// The first `n` characters split at white space: the finished words, and the
/// one under way.
pub open spec fn words_upto(s: Seq<char>, n: nat) -> (Seq<Seq<char>>, Seq<char>)
    decreases n,
{
    if n == 0 {
        (Seq::empty(), Seq::empty())
    } else {
        let (done, word) = words_upto(s, (n - 1) as nat);
        let c = s[n - 1];
        if !white_space(c) {
            (done, word.push(c))
        } else if word.len() == 0 {
            (done, word)
        } else {
            (done.push(word), Seq::empty())
        }
    }
}

/// The words of a text: its longest runs without white space.
pub open spec fn words(s: Seq<char>) -> Seq<Seq<char>> {
    let (done, word) = words_upto(s, s.len());
    if word.len() == 0 {
        done
    } else {
        done.push(word)
    }
}

/// The words of a text.
pub fn split_words(s: &str) -> (r: Vec<String>)
    ensures
        views(r@) == words(s@),
{
    let v = chars_of(s);
    let mut done: Vec<String> = Vec::new();
    let mut word = String::new();
    let mut i: usize = 0;
    proof {
        assert(views(done@) =~= Seq::<Seq<char>>::empty());
        assert(word@ =~= Seq::<char>::empty());
    }
    while i < v.len()
        invariant
            i <= v@.len(),
            v@ == s@,
            (views(done@), word@) == words_upto(s@, i as nat),
        decreases v.len() - i,
    {
        let c = v[i];
        let ghost had = done@;
        let ghost under_way = word@;
        if !is_white_space(c) {
            word.push(c);
        } else if !word.as_str().is_empty() {
            done.push(word);
            word = String::new();
            proof {
                assert(views(done@) =~= views(had).push(under_way));
                assert(word@ =~= Seq::<char>::empty());
            }
        }
        i += 1;
    }
    if !word.as_str().is_empty() {
        let ghost had = done@;
        let ghost under_way = word@;
        done.push(word);
        proof {
            assert(views(done@) =~= views(had).push(under_way));
        }
    }
    done
}

// ---------------------------------------------------------------- byte length

/// How many bytes UTF-8 takes for `c`.
pub open spec fn width(c: char) -> nat {
    if (c as u32) < 0x80 {
        1
    } else if (c as u32) < 0x800 {
        2
    } else if (c as u32) < 0x10000 {
        3
    } else {
        4
    }
}

/// How many bytes UTF-8 takes for `s`.
pub open spec fn byte_len(s: Seq<char>) -> nat
    decreases s.len(),
{
    if s.len() == 0 {
        0
    } else {
        byte_len(s.drop_last()) + width(s.last())
    }
}

/// How many bytes UTF-8 takes for `c`.
pub fn char_width(c: char) -> (r: usize)
    ensures
        r == width(c),
{
    let u: u32 = c as u32;
    if u < 0x80 {
        1
    } else if u < 0x800 {
        2
    } else if u < 0x10000 {
        3
    } else {
        4
    }
}

/// `byte_len` adds up over concatenation.
pub proof fn lemma_byte_len_add(a: Seq<char>, b: Seq<char>)
    ensures
        byte_len(a + b) == byte_len(a) + byte_len(b),
    decreases b.len(),
{
    if b.len() == 0 {
        assert(a + b == a);
    } else {
        assert((a + b).drop_last() == a + b.drop_last());
        lemma_byte_len_add(a, b.drop_last());
    }
}

/// A prefix takes no more bytes than the whole.
pub proof fn lemma_byte_len_prefix(s: Seq<char>, n: int)
    requires
        0 <= n <= s.len(),
    ensures
        byte_len(s.take(n)) <= byte_len(s),
{
    lemma_byte_len_add(s.take(n), s.skip(n));
    assert(s.take(n) + s.skip(n) == s);
}

/// `byte_len` is the length of the UTF-8 encoding.
pub proof fn law_byte_len_is_utf8_length(s: Seq<char>)
    ensures
        byte_len(s) == encode_utf8(s).len(),
    decreases s.len(),
{
    if s.len() > 0 {
        law_byte_len_is_utf8_length(s.drop_first());
        assert(seq![s[0]] + s.drop_first() == s);
        lemma_byte_len_add(seq![s[0]], s.drop_first());
        assert(seq![s[0]].drop_last() == Seq::<char>::empty());
        assert(byte_len(seq![s[0]]) == width(s[0])) by {
            assert(byte_len(Seq::<char>::empty()) == 0);
            assert(seq![s[0]].last() == s[0]);
        }
        vstd::utf8::char_is_scalar(s[0]);
    }
}

/// How many bytes UTF-8 takes for `s`.
pub fn byte_length(s: &str) -> (r: usize)
    ensures
        r == byte_len(s@),
{
    proof {
        law_byte_len_is_utf8_length(s@);
    }
    s.as_bytes().len()
}

/// How many bytes the first `to` characters take, from how many the first
/// `from` take.
pub fn bytes_to(t: &Vec<char>, from: usize, offset: usize, to: usize, total: usize) -> (r: usize)
    requires
        from <= to <= t@.len(),
        offset == byte_len(t@.take(from as int)),
        total == byte_len(t@),
    ensures
        r == byte_len(t@.take(to as int)),
{
    let mut i: usize = from;
    let mut sum: usize = offset;
    while i < to
        invariant
            from <= i <= to <= t@.len(),
            sum == byte_len(t@.take(i as int)),
            total == byte_len(t@),
        decreases to - i,
    {
        proof {
            lemma_byte_len_prefix(t@, i + 1);
            assert(t@.take(i + 1).drop_last() =~= t@.take(i as int));
            assert(t@.take(i + 1).last() == t@[i as int]);
        }
        sum = sum + char_width(t[i]);
        i += 1;
    }
    sum
}

/// The longest prefix of `s` that UTF-8 encodes in at most `n` bytes.
pub open spec fn byte_prefix(s: Seq<char>, n: nat) -> Seq<char>
    decreases s.len(),
{
    if byte_len(s) <= n {
        s
    } else {
        byte_prefix(s.drop_last(), n)
    }
}

proof fn lemma_byte_prefix(s: Seq<char>, k: int, n: nat)
    requires
        0 <= k < s.len(),
        byte_len(s.take(k)) <= n,
        byte_len(s.take(k + 1)) > n,
    ensures
        byte_prefix(s, n) == s.take(k),
    decreases s.len(),
{
    lemma_byte_len_prefix(s, k + 1);
    if k + 1 == s.len() {
        assert(s.drop_last() == s.take(k));
        assert(s.take(k + 1) == s);
        assert(byte_prefix(s.take(k), n) == s.take(k));
    } else {
        assert(s.drop_last().take(k) == s.take(k));
        assert(s.drop_last().take(k + 1) == s.take(k + 1));
        lemma_byte_prefix(s.drop_last(), k, n);
    }
}

/// The longest prefix of `s` that UTF-8 encodes in at most `n` bytes.
pub fn take_bytes(s: &str, n: usize) -> (r: String)
    ensures
        r@ == byte_prefix(s@, n as nat),
{
    let total = byte_length(s);
    let v = chars_of(s);
    let mut used: usize = 0;
    let mut i: usize = 0;
    while i < v.len()
        invariant
            i <= v@.len(),
            v@ == s@,
            total == byte_len(s@),
            used == byte_len(v@.take(i as int)),
            used <= n,
        decreases v.len() - i,
    {
        let w = char_width(v[i]);
        proof {
            assert(v@.take(i + 1).drop_last() == v@.take(i as int));
            assert(v@.take(i + 1).last() == v@[i as int]);
            lemma_byte_len_prefix(v@, i + 1);
        }
        if used + w > n {
            proof {
                lemma_byte_prefix(s@, i as int, n as nat);
                assert(v@.subrange(0, i as int) == v@.take(i as int));
            }
            return slice_of(&v, 0, i);
        }
        used += w;
        i += 1;
    }
    proof {
        assert(v@.take(v@.len() as int) == v@);
    }
    string_of(&v)
}

// --------------------------------------------------------------------- laws

/// One text stands before another exactly where, at the first place at which they
/// differ, it has ended or has the smaller character.
pub proof fn law_order_goes_by_first_difference(a: Seq<char>, b: Seq<char>, k: int)
    requires
        0 <= k <= a.len(),
        k <= b.len(),
        forall|i: int| 0 <= i < k ==> a[i] == b[i],
        k < a.len() && k < b.len() ==> a[k] != b[k],
    ensures
        lex_lt(a, b) <==> k < b.len() && (k == a.len() || a[k] < b[k]),
    decreases k,
{
    if k > 0 {
        assert forall|i: int| 0 <= i < k - 1 implies a.skip(1)[i] == b.skip(1)[i] by {
            assert(a[i + 1] == b[i + 1]);
        }
        law_order_goes_by_first_difference(a.skip(1), b.skip(1), k - 1);
    }
}

proof fn lemma_trimmed_start(s: Seq<char>, n: int)
    requires
        0 <= n <= s.len(),
        forall|i: int| 0 <= i < n ==> white_space(s[i]),
        n < s.len() ==> !white_space(s[n]),
    ensures
        trimmed_start(s) == s.skip(n),
    decreases n,
{
    if n > 0 {
        lemma_trimmed_start(s.skip(1), n - 1);
        assert(s.skip(1).skip(n - 1) =~= s.skip(n));
    } else {
        assert(s.skip(0) =~= s);
    }
}

proof fn lemma_trimmed_end(s: Seq<char>, n: int)
    requires
        0 <= n <= s.len(),
        forall|i: int| n <= i < s.len() ==> white_space(s[i]),
        n > 0 ==> !white_space(s[n - 1]),
    ensures
        trimmed_end(s) == s.take(n),
    decreases s.len() - n,
{
    if n < s.len() {
        lemma_trimmed_end(s.drop_last(), n);
        assert(s.drop_last().take(n) =~= s.take(n));
    } else {
        assert(s.take(n) =~= s);
    }
}

/// Trimming takes the white space at both ends and nothing else: what begins and ends
/// without white space comes out whole, whatever white space stands around it.
pub proof fn law_trimming_takes_white_space(left: Seq<char>, core: Seq<char>, right: Seq<char>)
    requires
        forall|i: int| 0 <= i < left.len() ==> white_space(left[i]),
        forall|i: int| 0 <= i < right.len() ==> white_space(right[i]),
        core.len() > 0 ==> !white_space(core[0]) && !white_space(core.last()),
    ensures
        trimmed(left + core + right) == core,
{
    let s = left + core + right;
    if core.len() > 0 {
        assert(s[left.len() as int] == core[0]);
        lemma_trimmed_start(s, left.len() as int);
        let t = s.skip(left.len() as int);
        assert(t =~= core + right);
        assert(t[core.len() - 1] == core.last());
        lemma_trimmed_end(t, core.len() as int);
        assert(t.take(core.len() as int) =~= core);
    } else {
        assert forall|i: int| 0 <= i < s.len() implies white_space(s[i]) by {
            if i >= left.len() {
                assert(s[i] == right[i - left.len()]);
            }
        }
        lemma_trimmed_start(s, s.len() as int);
        assert(s.skip(s.len() as int) =~= core);
    }
}

/// Blanks, tabs and line breaks are white space; what can be seen of ASCII is not.
pub proof fn law_what_white_space_is(c: char)
    requires
        (c as u32) < 0x7f,
    ensures
        white_space(c) <==> c == ' ' || c == '\t' || c == '\n' || c == '\r' || c as u32 == 0xb || c as u32
            == 0xc,
{
}

/// The first line of a text that begins with a line is that line.
pub proof fn law_first_line_is_first(line: Seq<char>, rest: Seq<char>)
    requires
        forall|i: int| 0 <= i < line.len() ==> line[i] != '\n',
        line.len() > 0 ==> line.last() != '\r',
    ensures
        first_line(line) == line,
        first_line(line + seq!['\n'] + rest) == line,
        first_line(line + seq!['\r', '\n'] + rest) == line,
{
    let n = line.len() as int;
    lemma_line_at(line, 0, n);
    let t = line + seq!['\n'] + rest;
    assert(t[n] == '\n');
    lemma_line_at(t, 0, n);
    assert(t.take(n) =~= line);
    let u = line + seq!['\r', '\n'] + rest;
    assert(u[n] == '\r' && u[n + 1] == '\n');
    lemma_line_at(u, 0, n + 1);
    assert(u.take(n) =~= line);
}

proof fn lemma_line_at(s: Seq<char>, i: int, n: int)
    requires
        0 <= i <= n <= s.len(),
        forall|j: int| i <= j < n ==> s[j] != '\n',
        n < s.len() ==> s[n] == '\n',
    ensures
        first_line_from(s, i) == (if n == s.len() {
            s
        } else if n > 0 && s[n - 1] == '\r' {
            s.take(n - 1)
        } else {
            s.take(n)
        }),
    decreases n - i,
{
    if i < n {
        lemma_line_at(s, i + 1, n);
    }
}

/// Splitting at a character and joining with it gives the text back, and no piece
/// holds the character.
pub proof fn law_split_pieces_join(s: Seq<char>, c: char)
    ensures
        joined(split_on(s, c), seq![c]) == s,
        split_on(s, c).len() >= 1,
        forall|i: int, k: int|
            0 <= i < split_on(s, c).len() && 0 <= k < split_on(s, c)[i].len() ==> split_on(
                s,
                c,
            )[i][k] != c,
    decreases s.len(),
{
    if s.len() == 0 {
        assert(joined(split_on(s, c), seq![c]) =~= s);
    } else {
        let head = s.drop_last();
        let before = split_on(head, c);
        law_split_pieces_join(head, c);
        let after = split_on(s, c);
        if s.last() == c {
            assert(after.drop_last() =~= before);
            assert(joined(after, seq![c]) =~= joined(before, seq![c]) + seq![c] + Seq::<
                char,
            >::empty());
            assert(head + seq![c] + Seq::<char>::empty() =~= s);
        } else {
            let last = before.last().push(s.last());
            assert(after.drop_last() =~= before.drop_last());
            assert(after.last() == last);
            if before.len() == 1 {
                assert(joined(after, seq![c]) == last);
                assert(head.push(s.last()) =~= s);
            } else {
                assert(joined(after, seq![c]) == joined(before.drop_last(), seq![c]) + seq![c]
                    + last);
                assert(joined(before.drop_last(), seq![c]) + seq![c] + last =~= (joined(
                    before.drop_last(),
                    seq![c],
                ) + seq![c] + before.last()).push(s.last()));
                assert(head.push(s.last()) =~= s);
            }
        }
    }
}

/// Joined parts stand in order with the separator between each two: the parts of two
/// lists are those of the first, the separator, and those of the second; one part
/// stands alone, and none give nothing.
pub proof fn law_parts_are_joined(
    a: Seq<Seq<char>>,
    b: Seq<Seq<char>>,
    x: Seq<char>,
    sep: Seq<char>,
)
    requires
        a.len() > 0,
        b.len() > 0,
    ensures
        joined(a + b, sep) == joined(a, sep) + sep + joined(b, sep),
        joined(seq![x], sep) == x,
        joined(Seq::empty(), sep) == Seq::<char>::empty(),
    decreases b.len(),
{
    assert((a + b).drop_last() =~= a + b.drop_last());
    assert((a + b).last() == b.last());
    if b.len() == 1 {
        assert(a + b.drop_last() =~= a);
    } else {
        law_parts_are_joined(a, b.drop_last(), x, sep);
        assert(joined(a + b, sep) =~= joined(a, sep) + sep + (joined(b.drop_last(), sep) + sep
            + b.last()));
    }
}

/// A number is written digit by digit, the highest first and without zeros in front.
pub proof fn law_numbers_are_written_by_digits(n: nat, d: nat)
    requires
        d < 10,
    ensures
        decimal(d) == seq![(('0' as u32) + d) as char],
        n > 0 ==> decimal(10 * n + d) == decimal(n).push((('0' as u32) + d) as char),
        n > 0 ==> decimal(n)[0] != '0',
        decimal(n).len() > 0,
        decimal_int(n as int) == decimal(n),
        n > 0 ==> decimal_int(-(n as int)) == seq!['-'] + decimal(n),
    decreases n,
{
    assert((10 * n + d) / 10 == n && (10 * n + d) % 10 == d);
    if n >= 10 {
        law_numbers_are_written_by_digits(n / 10, d);
        assert(decimal(n / 10).push(digit(n % 10))[0] == decimal(n / 10)[0]);
    }
}

proof fn lemma_decimal_value(n: nat)
    ensures
        digits_value(decimal(n)) == n,
        forall|i: int| 0 <= i < decimal(n).len() ==> is_digit(#[trigger] decimal(n)[i]),
        decimal(n).len() > 0,
    decreases n,
{
    reveal_with_fuel(digits_value, 2);
    if n < 10 {
        assert(seq![digit(n)].drop_last() =~= Seq::<char>::empty());
    } else {
        lemma_decimal_value(n / 10);
        assert(decimal(n).drop_last() =~= decimal(n / 10));
        assert(decimal(n).last() == digit(n % 10));
    }
}

/// A number that was written is read back, with or without a plus sign.
pub proof fn law_numbers_are_read_back(n: u64, m: i64)
    ensures
        parsed_u64(decimal(n as nat)) == Some(n),
        parsed_u64(seq!['+'] + decimal(n as nat)) == Some(n),
        parsed_i64(decimal_int(m as int)) == Some(m),
        parsed_u64(Seq::empty()) is None,
{
    lemma_decimal_value(n as nat);
    assert(is_digit(decimal(n as nat)[0]));
    assert((seq!['+'] + decimal(n as nat)).skip(1) =~= decimal(n as nat));
    if m < 0 {
        let k = (-(m as int)) as nat;
        lemma_decimal_value(k);
        assert(decimal_int(m as int).skip(1) =~= decimal(k));
    } else {
        lemma_decimal_value(m as nat);
        assert(is_digit(decimal(m as nat)[0]));
    }
}

/// What holds a character that is no digit, behind a sign at most, is no number.
pub proof fn law_only_digits_make_a_number(s: Seq<char>, i: int)
    requires
        0 <= i < s.len(),
        !('0' <= s[i] <= '9'),
        i > 0 || (s[i] != '+' && s[i] != '-'),
    ensures
        parsed_u64(s) is None,
        parsed_i64(s) is None,
{
    assert(!is_digit(s[i]));
    if i > 0 {
        assert(s.skip(1)[i - 1] == s[i]);
        assert(!is_digit(s.skip(1)[i - 1]));
    }
}

proof fn lemma_words_upto_same(a: Seq<char>, b: Seq<char>, n: nat)
    requires
        n <= a.len(),
        n <= b.len(),
        forall|i: int| 0 <= i < n ==> a[i] == b[i],
    ensures
        words_upto(a, n) == words_upto(b, n),
    decreases n,
{
    if n > 0 {
        lemma_words_upto_same(a, b, (n - 1) as nat);
    }
}

proof fn lemma_words_behind(a: Seq<char>, c: char, b: Seq<char>, n: nat)
    requires
        white_space(c),
        n <= b.len(),
    ensures
        ({
            let s = a + seq![c] + b;
            let (done, word) = words_upto(b, n);
            words_upto(s, a.len() + 1 + n) == (words(a) + done, word)
        }),
    decreases n,
{
    let s = a + seq![c] + b;
    if n == 0 {
        lemma_words_upto_same(s, a, a.len());
        assert(s[a.len() as int] == c);
        let (done, word) = words_upto(a, a.len());
        assert(words(a) + Seq::<Seq<char>>::empty() =~= words(a));
        assert(word.len() == 0 ==> word =~= Seq::<char>::empty());
    } else {
        lemma_words_behind(a, c, b, (n - 1) as nat);
        let (done, word) = words_upto(b, (n - 1) as nat);
        assert(s[(a.len() + n) as int] == b[n - 1]);
        assert(a.len() + 1 + n - 1 == a.len() + n);
        if white_space(b[n - 1]) && word.len() > 0 {
            assert((words(a) + done).push(word) =~= words(a) + done.push(word));
        }
    }
}

/// White space parts words: on both sides of it the words are those of each side. A
/// run without white space is one word, and where nothing is, there is none.
pub proof fn law_white_space_parts_words(a: Seq<char>, c: char, b: Seq<char>, w: Seq<char>)
    requires
        white_space(c),
        w.len() > 0,
        forall|i: int| 0 <= i < w.len() ==> !white_space(w[i]),
    ensures
        words(a + seq![c] + b) == words(a) + words(b),
        words(w) == seq![w],
        words(Seq::empty()) == Seq::<Seq<char>>::empty(),
{
    lemma_words_behind(a, c, b, b.len());
    let s = a + seq![c] + b;
    assert(s.len() == a.len() + 1 + b.len());
    let (done, word) = words_upto(b, b.len());
    if word.len() > 0 {
        assert((words(a) + done).push(word) =~= words(a) + done.push(word));
    }
    lemma_word_run(w, w.len());
    assert(w.take(w.len() as int) =~= w);
    assert(Seq::<Seq<char>>::empty().push(w) =~= seq![w]);
}

proof fn lemma_word_run(w: Seq<char>, n: nat)
    requires
        n <= w.len(),
        forall|i: int| 0 <= i < w.len() ==> !white_space(w[i]),
    ensures
        words_upto(w, n) == (Seq::<Seq<char>>::empty(), w.take(n as int)),
    decreases n,
{
    if n > 0 {
        lemma_word_run(w, (n - 1) as nat);
        assert(w.take(n as int) =~= w.take(n - 1).push(w[n - 1]));
    } else {
        assert(w.take(0) =~= Seq::<char>::empty());
    }
}

/// A text occurs in another exactly where it stands there character by character.
pub proof fn law_occurring_is_character_by_character(
    before: Seq<char>,
    needle: Seq<char>,
    after: Seq<char>,
    hay: Seq<char>,
)
    ensures
        occurs(before + needle + after, needle),
        occurs(hay, needle) ==> exists|i: int|
            0 <= i <= hay.len() - needle.len() && #[trigger] hay.subrange(i, i + needle.len())
                =~= needle,
{
    let t = before + needle + after;
    let n = before.len() as int;
    assert(t.subrange(n, n + needle.len()) =~= needle);
    assert(matches_at(t, needle, n));
    if occurs(hay, needle) {
        let i = choose|i: int| matches_at(hay, needle, i);
        assert(hay.subrange(i, i + needle.len()) =~= needle);
    }
}

proof fn lemma_padded(s: Seq<char>, width: nat)
    ensures
        padded_right(s, width).len() == (if s.len() < width {
            width
        } else {
            s.len()
        }),
        padded_left(s, width).len() == padded_right(s, width).len(),
        padded_right(s, width).take(s.len() as int) == s,
        padded_left(s, width).skip(padded_left(s, width).len() - s.len()) == s,
        forall|i: int| s.len() <= i < padded_right(s, width).len() ==> padded_right(s, width)[i] == ' ',
        forall|i: int|
            0 <= i < padded_left(s, width).len() - s.len() ==> padded_left(s, width)[i] == ' ',
    decreases width - s.len(),
{
    if s.len() < width {
        let r = s.push(' ');
        let l = seq![' '] + s;
        lemma_padded(r, width);
        lemma_padded(l, width);
        let pr = padded_right(s, width);
        let pl = padded_left(s, width);
        assert(pr.take(s.len() as int) =~= pr.take(r.len() as int).take(s.len() as int));
        assert(r.take(s.len() as int) =~= s);
        assert(pr[s.len() as int] == pr.take(r.len() as int)[s.len() as int]);
        let k = pl.len() - s.len();
        assert(pl.skip(k) =~= pl.skip(k - 1).skip(1));
        assert(l.skip(1) =~= s);
        assert(pl[k - 1] == pl.skip(k - 1)[0]);
    } else {
        assert(s.take(s.len() as int) =~= s);
        assert(s.skip(0) =~= s);
    }
}

/// Padding keeps the text whole, adds blanks on its side only, and makes it as wide as
/// asked for where it is not already.
pub proof fn law_padding_adds_blanks(s: Seq<char>, width: nat)
    ensures
        padded_right(s, width).len() == (if s.len() < width {
            width
        } else {
            s.len()
        }),
        padded_left(s, width).len() == padded_right(s, width).len(),
        padded_right(s, width).take(s.len() as int) == s,
        padded_left(s, width).skip(padded_left(s, width).len() - s.len()) == s,
        forall|i: int| s.len() <= i < padded_right(s, width).len() ==> padded_right(s, width)[i] == ' ',
        forall|i: int|
            0 <= i < padded_left(s, width).len() - s.len() ==> padded_left(s, width)[i] == ' ',
{
    lemma_padded(s, width);
}

/// A text cut to so many bytes is its longest beginning that fits.
pub proof fn law_cut_text_is_longest_that_fits(s: Seq<char>, n: nat)
    ensures
        byte_prefix(s, n).len() <= s.len(),
        byte_prefix(s, n) == s.take(byte_prefix(s, n).len() as int),
        encode_utf8(byte_prefix(s, n)).len() <= n,
        byte_prefix(s, n).len() < s.len() ==> encode_utf8(
            s.take(byte_prefix(s, n).len() as int + 1),
        ).len() > n,
    decreases s.len(),
{
    law_byte_len_is_utf8_length(s);
    if byte_len(s) <= n {
        assert(s.take(s.len() as int) =~= s);
    } else {
        let t = s.drop_last();
        law_cut_text_is_longest_that_fits(t, n);
        let k = byte_prefix(s, n).len() as int;
        assert(t.take(k) =~= s.take(k));
        if k + 1 == s.len() {
            assert(s.take(k + 1) =~= s);
        } else {
            assert(t.take(k + 1) =~= s.take(k + 1));
        }
    }
}

/// A text is split at the character just there: what stands on either side is split on its
/// own, and a text without the character is one piece.
pub proof fn law_splitting_goes_on_both_sides(a: Seq<char>, c: char, b: Seq<char>)
    ensures
        split_on(a + seq![c] + b, c) == split_on(a, c) + split_on(b, c),
        (forall|i: int| 0 <= i < a.len() ==> a[i] != c) ==> split_on(a, c) == seq![a],
    decreases b.len() + a.len(),
{
    let s = a + seq![c] + b;
    law_split_pieces_join(a, c);
    law_split_pieces_join(b, c);
    if b.len() == 0 {
        assert(s.drop_last() =~= a);
        assert(split_on(s, c) =~= split_on(a, c) + split_on(b, c));
    } else {
        law_splitting_goes_on_both_sides(a, c, b.drop_last());
        law_split_pieces_join(b.drop_last(), c);
        assert(s.drop_last() =~= a + seq![c] + b.drop_last());
        assert(split_on(s, c) =~= split_on(a, c) + split_on(b, c));
    }
    if a.len() > 0 && (forall|i: int| 0 <= i < a.len() ==> a[i] != c) {
        let h = a.drop_last();
        assert forall|i: int| 0 <= i < h.len() implies h[i] != c by {
            assert(a[i] != c);
        }
        law_splitting_goes_on_both_sides(h, c, Seq::empty());
        assert(split_on(h, c) == seq![h]);
        assert(a.last() != c);
        assert(h.push(a.last()) =~= a);
        assert(split_on(a, c) =~= seq![a]);
    } else if a.len() == 0 {
        assert(a =~= Seq::empty());
        assert(split_on(a, c) =~= seq![a]);
    }
}

/// A name is made of letters, digits and underscores, and of nothing else.
pub proof fn law_names_are_read_one_by_one(s: Seq<char>, c: char)
    ensures
        is_name(Seq::empty()),
        is_name(s.push(c)) <==> is_name(s) && (('a' <= c <= 'z') || ('A' <= c <= 'Z') || ('0' <= c
            <= '9') || c == '_'),
{
    if is_name(s.push(c)) {
        assert forall|i: int| 0 <= i < s.len() implies name_char(#[trigger] s[i]) by {
            assert(s.push(c)[i] == s[i]);
        }
        assert(name_char(s.push(c)[s.len() as int]));
    }
}

/// Only the capital letters of ASCII have a small one, which lies 32 behind; folding twice
/// changes nothing more.
pub proof fn law_capitals_have_small_letters(c: char)
    ensures
        'A' <= c <= 'Z' ==> ascii_lower(c) as u32 == c as u32 + 32,
        !('A' <= c <= 'Z') ==> ascii_lower(c) == c,
        ascii_lower(ascii_lower(c)) == ascii_lower(c),
{
}

} // verus!
