//! Typed ids: a short prefix and a ULID, written `prefix_ULID`.

use vstd::prelude::*;
use vstd::utf8::{encode_utf8, is_ascii_chars};

use crate::marker::scan::{first_char, search_char};
use crate::text::{byte_len, chars_of, law_byte_len_is_utf8_length, slice_of};

verus! {

// --------------------------------------------------------------------- ULIDs

/// A digit of a ULID: the digits, then the capital letters without I, L, O and U.
pub open spec fn ulid_digit(d: nat) -> char {
    if d < 10 {
        ('0' as nat + d) as char
    } else if d < 18 {
        ('A' as nat + d - 10) as char
    } else if d < 20 {
        ('J' as nat + d - 18) as char
    } else if d < 22 {
        ('M' as nat + d - 20) as char
    } else if d < 27 {
        ('P' as nat + d - 22) as char
    } else {
        ('V' as nat + d - 27) as char
    }
}

/// What a digit stands for; small letters count as their capitals.
pub open spec fn digit_worth(c: char) -> Option<nat> {
    if '0' <= c <= '9' {
        Some((c as nat - '0' as nat) as nat)
    } else if 'A' <= c <= 'H' {
        Some((c as nat - 'A' as nat + 10) as nat)
    } else if 'J' <= c <= 'K' {
        Some((c as nat - 'J' as nat + 18) as nat)
    } else if 'M' <= c <= 'N' {
        Some((c as nat - 'M' as nat + 20) as nat)
    } else if 'P' <= c <= 'T' {
        Some((c as nat - 'P' as nat + 22) as nat)
    } else if 'V' <= c <= 'Z' {
        Some((c as nat - 'V' as nat + 27) as nat)
    } else if 'a' <= c <= 'h' {
        Some((c as nat - 'a' as nat + 10) as nat)
    } else if 'j' <= c <= 'k' {
        Some((c as nat - 'j' as nat + 18) as nat)
    } else if 'm' <= c <= 'n' {
        Some((c as nat - 'm' as nat + 20) as nat)
    } else if 'p' <= c <= 't' {
        Some((c as nat - 'p' as nat + 22) as nat)
    } else if 'v' <= c <= 'z' {
        Some((c as nat - 'v' as nat + 27) as nat)
    } else {
        None
    }
}

/// The last `n` digits of a number, to the base 32.
pub open spec fn base32(v: nat, n: nat) -> Seq<char>
    decreases n,
{
    if n == 0 {
        Seq::empty()
    } else {
        base32(v / 32, (n - 1) as nat).push(ulid_digit(v % 32))
    }
}

/// Whether every character is a digit.
pub open spec fn all_digits(s: Seq<char>) -> bool {
    forall|i: int| 0 <= i < s.len() ==> digit_worth(#[trigger] s[i]) is Some
}

/// What the digits stand for together.
pub open spec fn worth(s: Seq<char>) -> nat
    decreases s.len(),
{
    if s.len() == 0 {
        0
    } else {
        worth(s.drop_last()) * 32 + digit_worth(s.last())->0
    }
}

/// The ULID that a text writes: 26 digits, of which the lowest 128 bits count.
pub open spec fn ulid_value(s: Seq<char>) -> Option<u128> {
    if byte_len(s) == 26 && all_digits(s) {
        Some((worth(s) % ((u128::MAX + 1) as nat)) as u128)
    } else {
        None
    }
}

/// Calls `ulid::Ulid::new`, which takes the time and a random number. Nothing is
/// claimed of the result.
#[verifier::external_body]
fn fresh_ulid() -> (r: u128) {
    ulid::Ulid::new().0
}

/// Calls `Display` of `ulid::Ulid`, and claims that it writes the number with 26
/// digits to the base 32.
#[verifier::external_body]
fn ulid_text(v: u128) -> (r: String)
    ensures
        r@ == base32(v as nat, 26),
{
    ulid::Ulid(v).to_string()
}

/// Calls `ulid::Ulid::from_string`, and claims that it accepts exactly 26 digits
/// to the base 32, in either case, and keeps the lowest 128 bits of the number.
#[verifier::external_body]
fn parse_ulid(s: &str) -> (r: Option<u128>)
    ensures
        r == ulid_value(s@),
{
    match ulid::Ulid::from_string(s) {
        Ok(u) => Some(u.0),
        Err(_) => None,
    }
}

// ----------------------------------------------------------------------- ids

/// How many bytes a prefix has.
pub const PREFIX_SIZE: usize = 4;

/// An id.
#[derive(Clone, Copy, Debug, Default, PartialEq, Eq, PartialOrd, Ord, Hash)]
pub struct Id {
    prefix: [u8; 4],
    ulid: u128,
}

/// What an [`Id`] holds.
#[verifier::ext_equal]
pub struct IdView {
    pub prefix: Seq<u8>,
    pub ulid: u128,
}

impl View for Id {
    type V = IdView;

    closed spec fn view(&self) -> IdView {
        IdView { prefix: self.prefix@, ulid: self.ulid }
    }
}

/// Why a text is no id.
#[derive(Clone, Copy, Debug, PartialEq, Eq, Structural)]
pub enum ParseIdError {
    MissingSeparator,
    InvalidUlid,
}

impl ParseIdError {
    /// Why a text is no id, in words.
    pub fn message(self) -> (r: &'static str)
        ensures
            r@ == (match self {
                ParseIdError::MissingSeparator => "missing separator"@,
                ParseIdError::InvalidUlid => "invalid ULID"@,
            }),
    {
        match self {
            ParseIdError::MissingSeparator => "missing separator",
            ParseIdError::InvalidUlid => "invalid ULID",
        }
    }
}

/// The first four bytes of a text, filled up with zeros.
pub open spec fn prefix_bytes(s: Seq<char>) -> Seq<u8> {
    let bytes = encode_utf8(s);
    Seq::new(
        4,
        |i: int|
            if i < bytes.len() {
                bytes[i]
            } else {
                0
            },
    )
}

/// A prefix as it is written: each byte up to the first zero as a character.
pub open spec fn prefix_chars(prefix: Seq<u8>) -> Seq<char>
    decreases prefix.len(),
{
    if prefix.len() == 0 || prefix[0] == 0 {
        Seq::empty()
    } else {
        seq![prefix[0] as char] + prefix_chars(prefix.skip(1))
    }
}

/// An id as it is written.
pub open spec fn id_text(id: IdView) -> Seq<char> {
    prefix_chars(id.prefix) + "_"@ + base32(id.ulid as nat, 26)
}

/// The id that a text writes: its prefix ends at the first underscore.
pub open spec fn id_of(s: Seq<char>) -> Result<IdView, ParseIdError> {
    match first_char(s, '_', 0) {
        None => Err(ParseIdError::MissingSeparator),
        Some(i) => match ulid_value(s.skip(i + 1)) {
            None => Err(ParseIdError::InvalidUlid),
            Some(ulid) => Ok(IdView { prefix: prefix_bytes(s.take(i)), ulid }),
        },
    }
}

impl Id {
    /// The first four bytes of a text, filled up with zeros.
    fn clamp_prefix(id: &str) -> (r: [u8; 4])
        ensures
            r@ == prefix_bytes(id@),
    {
        let bytes = id.as_bytes();
        let n: usize = bytes.len();
        let r: [u8; 4] = [
            if n > 0 {
                bytes[0]
            } else {
                0
            },
            if n > 1 {
                bytes[1]
            } else {
                0
            },
            if n > 2 {
                bytes[2]
            } else {
                0
            },
            if n > 3 {
                bytes[3]
            } else {
                0
            },
        ];
        proof {
            assert(r@ =~= prefix_bytes(id@));
        }
        r
    }

    /// A fresh id with the prefix. Its ULID comes from the clock and a random
    /// number.
    pub fn new(id: &str) -> (r: Id)
        ensures
            r@.prefix == prefix_bytes(id@),
    {
        Id { prefix: Id::clamp_prefix(id), ulid: fresh_ulid() }
    }

    /// The id with the prefix and the ULID.
    pub fn with_ulid(id: &str, ulid: u128) -> (r: Id)
        ensures
            r@ == (IdView { prefix: prefix_bytes(id@), ulid }),
    {
        Id { prefix: Id::clamp_prefix(id), ulid }
    }

    /// A fresh id of an operation.
    pub fn op() -> (r: Id)
        ensures
            r@.prefix == prefix_bytes("op"@),
    {
        Id::new("op")
    }

    /// A fresh id of an event.
    pub fn evt() -> (r: Id)
        ensures
            r@.prefix == prefix_bytes("evt"@),
    {
        Id::new("evt")
    }

    /// A fresh id of a session.
    pub fn ses() -> (r: Id)
        ensures
            r@.prefix == prefix_bytes("ses"@),
    {
        Id::new("ses")
    }

    /// A fresh id of a step.
    pub fn step() -> (r: Id)
        ensures
            r@.prefix == prefix_bytes("step"@),
    {
        Id::new("step")
    }

    /// Whether two ids are the same.
    pub fn same(&self, other: &Id) -> (r: bool)
        ensures
            r == (self@ == other@),
    {
        let r = self.ulid == other.ulid && self.prefix[0] == other.prefix[0] && self.prefix[1]
            == other.prefix[1] && self.prefix[2] == other.prefix[2] && self.prefix[3]
            == other.prefix[3];
        proof {
            if r {
                assert(self@ =~= other@);
            }
        }
        r
    }

    /// The id as it is written.
    pub fn to_text(&self) -> (r: String)
        ensures
            r@ == id_text(self@),
    {
        let mut s = String::new();
        let mut i: usize = 0;
        let ghost p = self.prefix@;
        proof {
            assert(p.skip(0) =~= p);
            assert(s@ + prefix_chars(p) =~= prefix_chars(p));
        }
        while i < 4 && self.prefix[i] != 0
            invariant
                i <= 4,
                p == self.prefix@,
                p.len() == 4,
                s@ + prefix_chars(p.skip(i as int)) == prefix_chars(p),
            decreases 4 - i,
        {
            let ghost had = s@;
            s.push(self.prefix[i] as char);
            proof {
                let rest = p.skip(i as int);
                assert(rest.skip(1) =~= p.skip(i + 1));
                assert(s@ + prefix_chars(p.skip(i + 1)) =~= had + (seq![rest[0] as char]
                    + prefix_chars(rest.skip(1))));
            }
            i += 1;
        }
        proof {
            assert(prefix_chars(p.skip(i as int)) =~= Seq::empty());
            assert(s@ =~= prefix_chars(p));
        }
        s.append("_");
        s.append(ulid_text(self.ulid).as_str());
        s
    }

    /// The id that a text writes.
    pub fn parse(s: &str) -> (r: Result<Id, ParseIdError>)
        ensures
            match r {
                Ok(id) => id_of(s@) == Ok::<IdView, ParseIdError>(id@),
                Err(e) => id_of(s@) == Err::<IdView, ParseIdError>(e),
            },
    {
        let v = chars_of(s);
        let i: usize = match search_char(&v, '_', 0) {
            None => {
                return Err(ParseIdError::MissingSeparator);
            },
            Some(i) => i,
        };
        let n: usize = v.len();
        let head = slice_of(&v, 0, i);
        let tail = slice_of(&v, i + 1, n);
        proof {
            assert(head@ =~= s@.take(i as int));
            assert(tail@ =~= s@.skip(i + 1));
        }
        match parse_ulid(tail.as_str()) {
            None => Err(ParseIdError::InvalidUlid),
            Some(ulid) => Ok(Id { prefix: Id::clamp_prefix(head.as_str()), ulid }),
        }
    }
}

// --------------------------------------------------------------------- laws

/// The highest power of 32 that `n` digits reach.
spec fn pow32(n: nat) -> nat
    decreases n,
{
    if n == 0 {
        1
    } else {
        32 * pow32((n - 1) as nat)
    }
}

proof fn lemma_digits(v: nat, n: nat)
    ensures
        base32(v, n).len() == n,
        all_digits(base32(v, n)),
        is_ascii_chars(base32(v, n)),
        worth(base32(v, n)) < pow32(n),
        worth(base32(v, n)) == v % pow32(n),
    decreases n,
{
    if n > 0 {
        lemma_digits(v / 32, (n - 1) as nat);
        let head = base32(v / 32, (n - 1) as nat);
        let d = v % 32;
        let s = base32(v, n);
        assert(s.drop_last() =~= head);
        assert(digit_worth(ulid_digit(d)) == Some(d));
        let p = pow32((n - 1) as nat);
        assert((v / 32) % p * 32 + v % 32 == v % (32 * p)) by (nonlinear_arith)
            requires
                p > 0,
        {
            vstd::arithmetic::div_mod::lemma_mod_breakdown(v as int, 32, p as int);
        }
        assert forall|i: int| 0 <= i < s.len() implies digit_worth(#[trigger] s[i]) is Some by {
            if i < n - 1 {
                assert(s[i] == head[i]);
            }
        }
        assert forall|i: int| 0 <= i < s.len() implies '\0' <= #[trigger] s[i] <= '\u{7f}' by {
            if i < n - 1 {
                assert(s[i] == head[i]);
            }
        }
    }
}

/// A ULID that was written is read back.
pub proof fn law_ulid_round_trip(v: u128)
    ensures
        ulid_value(base32(v as nat, 26)) == Some(v),
{
    let s = base32(v as nat, 26);
    lemma_digits(v as nat, 26);
    law_byte_len_is_utf8_length(s);
    vstd::utf8::is_ascii_chars_encode_utf8(s);
    assert(pow32(26) > u128::MAX) by {
        reveal_with_fuel(pow32, 27);
    }
    assert((v as nat) % pow32(26) == v) by (nonlinear_arith)
        requires
            (v as nat) < pow32(26),
    ;
    assert(worth(s) == v);
    vstd::arithmetic::div_mod::lemma_small_mod(v as nat, (u128::MAX + 1) as nat);
    assert(byte_len(s) == 26);
}

/// Whether a prefix is written and read back unchanged: ASCII without an
/// underscore, and zeros at the end only.
pub open spec fn plain_prefix(p: Seq<u8>) -> bool {
    &&& p.len() == 4
    &&& forall|i: int| 0 <= i < 4 ==> #[trigger] p[i] < 128 && p[i] != '_' as u8
    &&& forall|i: int, j: int| 0 <= i < j < 4 && #[trigger] p[i] == 0 ==> #[trigger] p[j] == 0
}

proof fn lemma_prefix_chars(p: Seq<u8>)
    ensures
        prefix_chars(p).len() <= p.len(),
        forall|i: int|
            0 <= i < prefix_chars(p).len() ==> #[trigger] prefix_chars(p)[i] == p[i] as char
                && p[i] != 0,
        prefix_chars(p).len() < p.len() ==> p[prefix_chars(p).len() as int] == 0,
    decreases p.len(),
{
    if p.len() > 0 && p[0] != 0 {
        lemma_prefix_chars(p.skip(1));
        let rest = prefix_chars(p.skip(1));
        assert forall|i: int| 0 <= i < prefix_chars(p).len() implies #[trigger] prefix_chars(p)[i]
            == p[i] as char && p[i] != 0 by {
            if i > 0 {
                assert(prefix_chars(p)[i] == rest[i - 1]);
            }
        }
    }
}

proof fn lemma_first_char_at(s: Seq<char>, c: char, from: int, at: int)
    requires
        0 <= from <= at < s.len(),
        s[at] == c,
        forall|j: int| from <= j < at ==> s[j] != c,
    ensures
        first_char(s, c, from) == Some(at),
    decreases at - from,
{
    if from < at {
        lemma_first_char_at(s, c, from + 1, at);
    }
}

/// An id that was written is read back, if its prefix is plain.
pub proof fn law_id_round_trip(id: IdView)
    requires
        plain_prefix(id.prefix),
    ensures
        id_of(id_text(id)) == Ok::<IdView, ParseIdError>(id),
{
    reveal_strlit("_");
    let p = id.prefix;
    let head = prefix_chars(p);
    let tail = base32(id.ulid as nat, 26);
    let s = id_text(id);
    let n = head.len() as int;
    lemma_prefix_chars(p);
    law_ulid_round_trip(id.ulid);
    assert(s[n] == '_');
    assert forall|j: int| 0 <= j < n implies s[j] != '_' by {
        assert(s[j] == head[j]);
        assert(p[j] < 128 && p[j] != '_' as u8);
    }
    lemma_first_char_at(s, '_', 0, n);
    assert(s.take(n) =~= head);
    assert(s.skip(n + 1) =~= tail);
    assert(is_ascii_chars(head)) by {
        assert forall|i: int| 0 <= i < head.len() implies '\0' <= #[trigger] head[i]
            <= '\u{7f}' by {
            assert(p[i] < 128);
        }
    }
    vstd::utf8::is_ascii_chars_encode_utf8(head);
    assert(prefix_bytes(head) =~= p) by {
        assert forall|i: int| 0 <= i < 4 implies #[trigger] prefix_bytes(head)[i] == p[i] by {
            if i < head.len() {
                assert(head[i] == p[i] as char);
                assert(head[i] as u8 == encode_utf8(head)[i]);
                assert(p[i] < 128);
            } else {
                assert(p[head.len() as int] == 0);
                if i > head.len() {
                    assert(p[i] == 0);
                }
            }
        }
    }
    assert(id_of(s)->Ok_0 =~= id);
}

} // verus!
