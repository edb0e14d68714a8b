//! JSON values as plain data.

use vstd::prelude::*;

use crate::text::str_eq;

verus! {

/// A JSON number: a non-negative or a negative integer, or any other number by
/// its text.
#[derive(Debug)]
pub enum Number {
    PosInt(u64),
    NegInt(i64),
    Float(String),
}

/// A JSON value. The members of an object stand in a list; of two members with
/// the same key the first one counts.
#[derive(Debug)]
pub enum Json {
    Null,
    Bool(bool),
    Number(Number),
    Str(String),
    Array(Vec<Json>),
    Object(Vec<(String, Json)>),
}

/// The member with the key `key`, looked for from place `i` on.
pub open spec fn member_from(fields: Seq<(String, Json)>, key: Seq<char>, i: int) -> Option<Json>
    decreases fields.len() - i,
{
    if i >= fields.len() || i < 0 {
        None
    } else if fields[i].0@ == key {
        Some(fields[i].1)
    } else {
        member_from(fields, key, i + 1)
    }
}

/// The member with the key `key`.
pub open spec fn member(fields: Seq<(String, Json)>, key: Seq<char>) -> Option<Json> {
    member_from(fields, key, 0)
}

impl Json {
    /// The member with the key `key`, where this is an object.
    pub open spec fn spec_get(self, key: Seq<char>) -> Option<Json> {
        match self {
            Json::Object(fields) => member(fields@, key),
            _ => None,
        }
    }

    /// The text, where this is a string.
    pub open spec fn text(self) -> Option<Seq<char>> {
        match self {
            Json::Str(s) => Some(s@),
            _ => None,
        }
    }

    /// The number, where this is an integer that fits in 64 signed bits.
    pub open spec fn integer(self) -> Option<i64> {
        match self {
            Json::Number(Number::PosInt(n)) => if n <= i64::MAX {
                Some(n as i64)
            } else {
                None
            },
            Json::Number(Number::NegInt(n)) => Some(n),
            _ => None,
        }
    }

    /// The text of the member with the key `key`.
    pub open spec fn text_at(self, key: Seq<char>) -> Option<Seq<char>> {
        match self.spec_get(key) {
            Some(v) => v.text(),
            None => None,
        }
    }

    /// The integer of the member with the key `key`.
    pub open spec fn integer_at(self, key: Seq<char>) -> Option<i64> {
        match self.spec_get(key) {
            Some(v) => v.integer(),
            None => None,
        }
    }

    /// The member with the key `key`, where this is an object.
    pub fn get(&self, key: &str) -> (r: Option<&Json>)
        ensures
            match r {
                Some(v) => self.spec_get(key@) == Some(*v),
                None => self.spec_get(key@) is None,
            },
    {
        match self {
            Json::Object(fields) => {
                let mut i: usize = 0;
                while i < fields.len()
                    invariant
                        i <= fields@.len(),
                        self.spec_get(key@) == member(fields@, key@),
                        member_from(fields@, key@, i as int) == member(fields@, key@),
                    decreases fields.len() - i,
                {
                    if str_eq(fields[i].0.as_str(), key) {
                        return Some(&fields[i].1);
                    }
                    i += 1;
                }
                None
            },
            _ => None,
        }
    }

    /// The text, where this is a string.
    pub fn as_str(&self) -> (r: Option<&str>)
        ensures
            match r {
                Some(s) => self.text() == Some(s@),
                None => self.text() is None,
            },
    {
        match self {
            Json::Str(s) => Some(s.as_str()),
            _ => None,
        }
    }

    /// The number, where this is an integer that fits in 64 signed bits.
    pub fn as_i64(&self) -> (r: Option<i64>)
        ensures
            r == self.integer(),
    {
        match self {
            Json::Number(Number::PosInt(n)) => if *n <= i64::MAX as u64 {
                Some(*n as i64)
            } else {
                None
            },
            Json::Number(Number::NegInt(n)) => Some(*n),
            _ => None,
        }
    }

    /// The text of the member with the key `key`.
    pub fn str_at(&self, key: &str) -> (r: Option<String>)
        ensures
            match r {
                Some(s) => self.text_at(key@) == Some(s@),
                None => self.text_at(key@) is None,
            },
    {
        match self.get(key) {
            Some(v) => match v.as_str() {
                Some(s) => Some(s.to_owned()),
                None => None,
            },
            None => None,
        }
    }

    /// The integer of the member with the key `key`.
    pub fn i64_at(&self, key: &str) -> (r: Option<i64>)
        ensures
            r == self.integer_at(key@),
    {
        match self.get(key) {
            Some(v) => v.as_i64(),
            None => None,
        }
    }
}

/// A member put behind the others is found unless its key was there before, and
/// it hides none of them.
pub proof fn lemma_member_push(fields: Seq<(String, Json)>, entry: (String, Json), key: Seq<char>)
    ensures
        member(fields.push(entry), key) == (match member(fields, key) {
            Some(v) => Some(v),
            None => if entry.0@ == key {
                Some(entry.1)
            } else {
                None
            },
        }),
{
    lemma_member_push_from(fields, entry, key, 0);
}

proof fn lemma_member_push_from(
    fields: Seq<(String, Json)>,
    entry: (String, Json),
    key: Seq<char>,
    i: int,
)
    requires
        0 <= i <= fields.len(),
    ensures
        member_from(fields.push(entry), key, i) == (match member_from(fields, key, i) {
            Some(v) => Some(v),
            None => if entry.0@ == key {
                Some(entry.1)
            } else {
                None
            },
        }),
    decreases fields.len() - i,
{
    if i < fields.len() {
        assert(fields.push(entry)[i] == fields[i]);
        if fields[i].0@ != key {
            lemma_member_push_from(fields, entry, key, i + 1);
        }
    } else {
        assert(fields.push(entry)[i] == entry);
        assert(member_from(fields.push(entry), key, i + 1) is None);
    }
}

/// What a member of a flat object holds: a text, an integer, or something else.
pub enum Leaf {
    Text(Seq<char>),
    Whole(int),
    Other,
}

/// What a value holds, one level deep.
pub open spec fn leaf(v: Json) -> Leaf {
    match v {
        Json::Str(s) => Leaf::Text(s@),
        Json::Number(Number::PosInt(n)) => Leaf::Whole(n as int),
        Json::Number(Number::NegInt(n)) => Leaf::Whole(n as int),
        _ => Leaf::Other,
    }
}

/// The members of a list, each with its key and what it holds.
pub open spec fn leaves(fields: Seq<(String, Json)>) -> Seq<(Seq<char>, Leaf)> {
    fields.map_values(|e: (String, Json)| (e.0@, leaf(e.1)))
}

/// Whether a value is the object with these members in this order.
pub open spec fn is_flat(v: Json, members: Seq<(Seq<char>, Leaf)>) -> bool {
    match v {
        Json::Object(fields) => leaves(fields@) == members,
        _ => false,
    }
}

/// Appends a member that holds a text.
pub fn push_text(fields: &mut Vec<(String, Json)>, key: &str, value: &str)
    ensures
        leaves(final(fields)@) == leaves(old(fields)@).push((key@, Leaf::Text(value@))),
{
    let ghost before = fields@;
    fields.push((key.to_owned(), Json::Str(value.to_owned())));
    proof {
        assert(leaves(fields@) =~= leaves(before).push((key@, Leaf::Text(value@))));
    }
}

/// Appends a member that holds an integer.
pub fn push_whole(fields: &mut Vec<(String, Json)>, key: &str, value: i64)
    ensures
        leaves(final(fields)@) == leaves(old(fields)@).push((key@, Leaf::Whole(value as int))),
{
    let ghost before = fields@;
    let number = if value >= 0 {
        Number::PosInt(value as u64)
    } else {
        Number::NegInt(value)
    };
    fields.push((key.to_owned(), Json::Number(number)));
    proof {
        assert(leaves(fields@) =~= leaves(before).push((key@, Leaf::Whole(value as int))));
    }
}

/// Appends a member that holds a count.
pub fn push_count(fields: &mut Vec<(String, Json)>, key: &str, value: usize)
    ensures
        leaves(final(fields)@) == leaves(old(fields)@).push((key@, Leaf::Whole(value as int))),
{
    let ghost before = fields@;
    fields.push((key.to_owned(), Json::Number(Number::PosInt(value as u64))));
    proof {
        assert(leaves(fields@) =~= leaves(before).push((key@, Leaf::Whole(value as int))));
    }
}

/// Of the members of an object with the same key the first one counts, and only where
/// none has the key there is none.
pub proof fn law_first_member_counts(fields: Seq<(String, Json)>, key: Seq<char>, i: int)
    requires
        0 <= i <= fields.len(),
        forall|j: int| 0 <= j < i ==> (#[trigger] fields[j]).0@ != key,
        i < fields.len() ==> fields[i].0@ == key,
    ensures
        member(fields, key) == (if i < fields.len() {
            Some(fields[i].1)
        } else {
            None
        }),
{
    lemma_member_at(fields, key, 0, i);
}

proof fn lemma_member_at(fields: Seq<(String, Json)>, key: Seq<char>, from: int, i: int)
    requires
        0 <= from <= i <= fields.len(),
        forall|j: int| from <= j < i ==> (#[trigger] fields[j]).0@ != key,
        i < fields.len() ==> fields[i].0@ == key,
    ensures
        member_from(fields, key, from) == (if i < fields.len() {
            Some(fields[i].1)
        } else {
            None
        }),
    decreases i - from,
{
    if from < i {
        assert(fields[from].0@ != key);
        lemma_member_at(fields, key, from + 1, i);
    }
}

/// A member gives its text where it is a string and its number where it is an integer
/// that fits, and nothing else.
pub proof fn law_members_by_kind(v: Json, key: Seq<char>, text: String, n: i64, big: u64, m: Json)
    ensures
        Json::Str(text).text() == Some(text@),
        Json::Str(text).integer() is None,
        n < 0 ==> Json::Number(Number::NegInt(n)).integer() == Some(n),
        n >= 0 ==> Json::Number(Number::PosInt(n as u64)).integer() == Some(n),
        big > i64::MAX ==> Json::Number(Number::PosInt(big)).integer() is None,
        Json::Number(Number::Float(text)).integer() is None,
        !(m is Str) ==> m.text() is None,
        !(m is Number) ==> m.integer() is None,
        !(v is Object) ==> v.spec_get(key) is None,
        v.spec_get(key) == Some(m) ==> v.text_at(key) == m.text() && v.integer_at(key)
            == m.integer(),
        v.spec_get(key) is None ==> v.text_at(key) is None && v.integer_at(key) is None,
{
}

} // verus!
